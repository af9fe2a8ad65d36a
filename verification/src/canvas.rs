//! The canvas: an owned grid of RGBA pixels, its compositor and its
//! squared-error metric.

use vstd::prelude::*;
use crate::color::Color;
use crate::numeric::{spec_clamp, round_div, lemma_round_mean, lemma_round_negative};
use crate::scanline::{Scanline, all_within};

verus! {

/// The side of the square whose area bounds a working canvas.
pub const SIZE: usize = 256;

/// The greatest number of pixels that any canvas holds.
pub const MAX_AREA: usize = 0x1000_0000;

/// A grid of `w` by `h` pixels, stored row by row, four bytes to the pixel
/// in the order red, green, blue, alpha.
#[derive(Debug, Clone)]
pub struct Pixels {
    pub buf: Vec<u8>,
    pub w: usize,
    pub h: usize,
}

/// The place of the pixel `(x, y)` in the bytes of a canvas `w` wide.
pub open spec fn spec_index(w: int, x: int, y: int) -> int {
    4 * (y * w + x)
}

/// The first byte of `line` in the bytes of a canvas `w` wide.
pub open spec fn span_start(w: int, line: Scanline) -> int {
    spec_index(w, line.x1 as int, line.y as int)
}

/// The end of the bytes of `line` in the bytes of a canvas `w` wide.
pub open spec fn span_end(w: int, line: Scanline) -> int {
    spec_index(w, line.x2 + 1, line.y as int)
}

/// The bytes of a span on the canvas lie in the bytes of the canvas, and
/// within the bytes of its row.
pub proof fn lemma_span_bytes(w: usize, h: usize, line: Scanline)
    requires
        line.within(w, h),
    ensures
        0 <= 4 * (line.y * w) <= span_start(w as int, line) < span_end(w as int, line) <= 4 * ((
        line.y + 1) * w) <= 4 * (w * h),
        span_start(w as int, line) % 4 == 0,
        span_end(w as int, line) % 4 == 0,
        span_end(w as int, line) - span_start(w as int, line) == 4 * (line.x2 - line.x1 + 1),
{
    let y = line.y as int;
    let wi = w as int;
    assert(0 <= y * wi && (y + 1) * wi == y * wi + wi && (y + 1) * wi <= wi * h)
        by (nonlinear_arith)
        requires
            0 <= y < h,
            0 <= wi,
    ;
}

/// The bytes of a canvas of `len` bytes that is filled with `c`.
pub open spec fn erased(len: nat, c: Color) -> Seq<u8> {
    Seq::new(len, |k: int| c.channel(k % 4))
}

/// Fills `buf` with the colour `color`, pixel by pixel.
pub fn erase(buf: &mut Vec<u8>, color: &Color)
    requires
        old(buf).len() % 4 == 0,
    ensures
        final(buf)@ == erased(old(buf)@.len(), *color),
{
    let len: usize = buf.len();
    let mut i: usize = 0;
    while i < len
        invariant
            len % 4 == 0,
            i % 4 == 0,
            i <= len,
            buf.len() == len,
            forall|k: int| 0 <= k < i ==> #[trigger] buf[k] == color.channel(k % 4),
        decreases len - i,
    {
        buf[i] = color.r();
        buf[i + 1] = color.g();
        buf[i + 2] = color.b();
        buf[i + 3] = color.a();
        i += 4;
    }
    assert(buf@ =~= erased(len as nat, *color));
}

impl Pixels {
    /// The bytes fit the size, and the size is one that a canvas may have.
    pub open spec fn wf(&self) -> bool {
        &&& self.w * self.h <= MAX_AREA
        &&& self.buf.len() == 4 * (self.w * self.h)
    }

    /// The pixel `(x, y)` of the canvas.
    pub open spec fn pixel(&self, x: int, y: int) -> Color {
        let i = spec_index(self.w as int, x, y);
        Color::of(self.buf[i], self.buf[i + 1], self.buf[i + 2], self.buf[i + 3])
    }

    /// A canvas of `w` by `h` pixels, every byte zero.
    pub fn new(w: usize, h: usize) -> (p: Pixels)
        requires
            w * h <= MAX_AREA,
        ensures
            p.wf(),
            p.w == w,
            p.h == h,
            p.buf@ == Seq::new((4 * (w * h)) as nat, |k: int| 0u8),
    {
        let area: usize = area_of(w, h);
        let len: usize = 4 * area;
        let mut buf: Vec<u8> = Vec::new();
        let mut i: usize = 0;
        while i < len
            invariant
                i <= len,
                buf.len() == i,
                forall|k: int| 0 <= k < i ==> #[trigger] buf[k] == 0u8,
            decreases len - i,
        {
            buf.push(0);
            i += 1;
        }
        assert(buf@ =~= Seq::new((4 * (w * h)) as nat, |k: int| 0u8));
        Pixels { buf, w, h }
    }

    /// The canvas of `w` by `h` pixels that the bytes `raw` hold.
    pub fn from(raw: Vec<u8>, w: usize, h: usize) -> (p: Pixels)
        requires
            w * h < SIZE * SIZE,
            raw.len() == 4 * (w * h),
        ensures
            p.wf(),
            p.w == w,
            p.h == h,
            p.buf@ == raw@,
    {
        Pixels { buf: raw, w, h }
    }

    /// A canvas with the same size and the same pixels.
    pub fn copy(&self) -> (p: Pixels)
        ensures
            p.buf@ == self.buf@,
            p.w == self.w,
            p.h == self.h,
    {
        let buf: Vec<u8> = self.buf.clone();
        assert(buf@ =~= self.buf@);
        Pixels { buf, w: self.w, h: self.h }
    }

    /// The place of the first byte of the pixel `(x, y)` in `buf`.
    pub fn index(&self, x: usize, y: usize) -> (i: usize)
        requires
            self.wf(),
            x < self.w,
            y < self.h,
        ensures
            i == spec_index(self.w as int, x as int, y as int),
            i + 4 <= self.buf.len(),
    {
        proof {
            lemma_span_bytes(self.w, self.h, Scanline { y, x1: x, x2: x });
        }
        assert(y * self.w <= self.w * self.h) by (nonlinear_arith)
            requires
                y < self.h,
                0 <= self.w,
        ;
        4 * (y * self.w + x)
    }

    /// The colour of the pixel `(x, y)`.
    pub fn get(&self, x: usize, y: usize) -> (c: Color)
        requires
            self.wf(),
            x < self.w,
            y < self.h,
        ensures
            c == self.pixel(x as int, y as int),
    {
        let i: usize = self.index(x, y);
        Color::new(self.buf[i], self.buf[i + 1], self.buf[i + 2], self.buf[i + 3])
    }

    /// The four bytes of the pixel `(x, y)`.
    pub fn get_arr(&self, x: usize, y: usize) -> (s: &[u8])
        requires
            self.wf(),
            x < self.w,
            y < self.h,
        ensures
            s@ == self.buf@.subrange(
                spec_index(self.w as int, x as int, y as int),
                spec_index(self.w as int, x as int, y as int) + 4,
            ),
    {
        let i: usize = self.index(x, y);
        &self.buf[i..i + 4]
    }

    /// Sets the pixel `(x, y)` to `color` and leaves the others as they
    /// were.
    pub fn put(&mut self, x: usize, y: usize, color: &Color)
        requires
            old(self).wf(),
            x < old(self).w,
            y < old(self).h,
        ensures
            final(self).wf(),
            final(self).w == old(self).w,
            final(self).h == old(self).h,
            final(self).buf@ == put_bytes(
                old(self).buf@,
                spec_index(old(self).w as int, x as int, y as int),
                *color,
            ),
            final(self).pixel(x as int, y as int) == *color,
    {
        let i: usize = self.index(x, y);
        self.buf[i] = color.r();
        self.buf[i + 1] = color.g();
        self.buf[i + 2] = color.b();
        self.buf[i + 3] = color.a();
        proof {
            color.lemma_channels_make();
        }
    }

    /// The two canvases have the same size.
    pub open spec fn same_size(&self, other: &Pixels) -> bool {
        self.w == other.w && self.h == other.h
    }

    /// The opaque colour whose red, green and blue are the means of those
    /// channels over all pixels, rounded down.
    pub open spec fn spec_average(&self) -> Color {
        Color::of(
            (channel_sum(self.buf@, 0, self.w * self.h) / (self.w * self.h)) as u8,
            (channel_sum(self.buf@, 1, self.w * self.h) / (self.w * self.h)) as u8,
            (channel_sum(self.buf@, 2, self.w * self.h) / (self.w * self.h)) as u8,
            255,
        )
    }

    /// The opaque colour whose red, green and blue are the means of those
    /// channels over all pixels, rounded down.
    pub fn average_color(&self) -> (c: Color)
        requires
            self.wf(),
            self.w * self.h > 0,
        ensures
            c == self.spec_average(),
            c.spec_a() == 255,
    {
        broadcast use Color::lemma_of_channels;

        let area: usize = area_of(self.w, self.h);
        let mut r: u64 = 0;
        let mut g: u64 = 0;
        let mut b: u64 = 0;
        let mut n: usize = 0;
        while n < area
            invariant
                n <= area,
                area <= MAX_AREA,
                self.buf.len() == 4 * area,
                r == channel_sum(self.buf@, 0, n as int),
                g == channel_sum(self.buf@, 1, n as int),
                b == channel_sum(self.buf@, 2, n as int),
                r <= 255 * n,
                g <= 255 * n,
                b <= 255 * n,
            decreases area - n,
        {
            r += self.buf[4 * n] as u64;
            g += self.buf[4 * n + 1] as u64;
            b += self.buf[4 * n + 2] as u64;
            n += 1;
        }
        let count: u64 = area as u64;
        assert(r / count <= 255 && g / count <= 255 && b / count <= 255) by (nonlinear_arith)
            requires
                r <= 255 * count,
                g <= 255 * count,
                b <= 255 * count,
                count > 0,
        ;
        Color::new((r / count) as u8, (g / count) as u8, (b / count) as u8, 255)
    }

    /// The squared distance of the canvases `a` and `b`: the sum, over all
    /// pixels and all four channels, of the squared difference.
    pub fn difference_full(a: &Pixels, b: &Pixels) -> (total: u64)
        requires
            a.wf(),
            b.wf(),
            a.same_size(b),
        ensures
            total == sq_err(a.buf@, b.buf@),
            total <= 65025 * (4 * (a.w * a.h)),
    {
        let len: usize = a.buf.len();
        let mut total: u64 = 0;
        let mut i: usize = 0;
        while i < len
            invariant
                i <= len,
                len == a.buf.len(),
                len == b.buf.len(),
                len <= 4 * MAX_AREA,
                total == range_err(a.buf@, b.buf@, 0, i as int),
                total <= 65025 * i,
            decreases len - i,
        {
            proof {
                lemma_range_err_bound(a.buf@, b.buf@, 0, i + 1);
            }
            total += square_diff(a.buf[i], b.buf[i]);
            i += 1;
        }
        total
    }

    /// The colour of alpha `alpha` that, composited over the pixels of
    /// `lines` on this canvas, comes closest to `target`; transparent
    /// black where `lines` is empty.
    pub fn compute_color(&self, target: &Pixels, lines: &[Scanline], alpha: u8) -> (c: Color)
        requires
            self.wf(),
            target.wf(),
            self.same_size(target),
            all_within(lines@, self.w, self.h),
            alpha > 0,
        ensures
            c == best_color(target.buf@, self.buf@, self.w as int, lines@, alpha),
    {
        let a: i64 = 0xffff / (alpha as i64);
        let w: usize = self.w;
        let mut rsum: i128 = 0;
        let mut gsum: i128 = 0;
        let mut bsum: i128 = 0;
        let mut count: i128 = 0;
        let mut n: usize = 0;
        assert(lines@.take(0) =~= Seq::<Scanline>::empty());
        while n < lines.len()
            invariant
                n <= lines.len(),
                self.wf(),
                target.wf(),
                self.same_size(target),
                w == self.w,
                all_within(lines@, self.w, self.h),
                a == 65535int / (alpha as int),
                0 <= a <= 65535,
                rsum == lines_fit(target.buf@, self.buf@, w as int, a as int, 0, lines@.take(n as int)),
                gsum == lines_fit(target.buf@, self.buf@, w as int, a as int, 1, lines@.take(n as int)),
                bsum == lines_fit(target.buf@, self.buf@, w as int, a as int, 2, lines@.take(n as int)),
                count == lines_area(lines@.take(n as int)),
                -0x10_0000_0000_0000 * n <= rsum <= 0x10_0000_0000_0000 * n,
                -0x10_0000_0000_0000 * n <= gsum <= 0x10_0000_0000_0000 * n,
                -0x10_0000_0000_0000 * n <= bsum <= 0x10_0000_0000_0000 * n,
                0 <= count <= 0x1000_0000 * n,
                n > 0 ==> count > 0,
            decreases lines.len() - n,
        {
            let line: Scanline = lines[n];
            proof {
                assert(line.within(self.w, self.h));
                lemma_span_bytes(self.w, self.h, line);
                lemma_width_bound(self.w, self.h, line);
                assert(lines@.take(n + 1).drop_last() =~= lines@.take(n as int));
                assert(lines@.take(n + 1).last() == line);
            }
            let start: usize = 4 * (line.y * w + line.x1);
            let width: usize = line.x2 - line.x1 + 1;
            let mut lr: i64 = 0;
            let mut lg: i64 = 0;
            let mut lb: i64 = 0;
            let mut k: usize = 0;
            while k < width
                invariant
                    k <= width <= 0x1000_0000,
                    start + 4 * width <= self.buf.len(),
                    self.buf.len() == target.buf.len(),
                    0 <= a <= 65535,
                    lr == fit_sum(target.buf@, self.buf@, a as int, 0, start as int, k as int),
                    lg == fit_sum(target.buf@, self.buf@, a as int, 1, start as int, k as int),
                    lb == fit_sum(target.buf@, self.buf@, a as int, 2, start as int, k as int),
                    -0x100_0000 * k <= lr <= 0x100_0000 * k,
                    -0x100_0000 * k <= lg <= 0x100_0000 * k,
                    -0x100_0000 * k <= lb <= 0x100_0000 * k,
                decreases width - k,
            {
                let i: usize = start + 4 * k;
                lr += fit(target.buf[i], self.buf[i], a);
                lg += fit(target.buf[i + 1], self.buf[i + 1], a);
                lb += fit(target.buf[i + 2], self.buf[i + 2], a);
                k += 1;
            }
            rsum += lr as i128;
            gsum += lg as i128;
            bsum += lb as i128;
            count += width as i128;
            n += 1;
        }
        assert(lines@.take(lines.len() as int) =~= lines@);
        if count == 0 {
            return Color::new(0, 0, 0, 0);
        }
        let r: u8 = fit_channel(rsum, count);
        let g: u8 = fit_channel(gsum, count);
        let b: u8 = fit_channel(bsum, count);
        Color::new(r, g, b, alpha)
    }

    /// Copies the pixels of `lines` from `src`, a canvas of the same size.
    pub fn copy_lines(&mut self, src: &Pixels, lines: &[Scanline])
        requires
            old(self).wf(),
            src.wf(),
            old(self).same_size(src),
            all_within(lines@, old(self).w, old(self).h),
        ensures
            final(self).wf(),
            final(self).same_size(old(self)),
            final(self).buf@ == copied(old(self).buf@, src.buf@, old(self).w as int, lines@),
    {
        let ghost before = self.buf@;
        let w: usize = self.w;
        let mut n: usize = 0;
        assert(lines@.take(0) =~= Seq::<Scanline>::empty());
        while n < lines.len()
            invariant
                n <= lines.len(),
                self.wf(),
                src.wf(),
                self.same_size(src),
                w == self.w,
                self.w == old(self).w,
                self.h == old(self).h,
                all_within(lines@, self.w, self.h),
                self.buf@ == copied(before, src.buf@, w as int, lines@.take(n as int)),
            decreases lines.len() - n,
        {
            let line: Scanline = lines[n];
            let ghost at_line = self.buf@;
            proof {
                assert(line.within(self.w, self.h));
                lemma_span_bytes(self.w, self.h, line);
                assert(lines@.take(n + 1).drop_last() =~= lines@.take(n as int));
                assert(lines@.take(n + 1).last() == line);
                assert(at_line =~= copy_range(at_line, src.buf@, span_start(w as int, line), span_start(w as int, line)));
            }
            let start: usize = 4 * (line.y * w + line.x1);
            let end: usize = start + 4 * (line.x2 - line.x1 + 1);
            let mut i: usize = start;
            while i < end
                invariant
                    start <= i <= end,
                    end <= self.buf.len(),
                    self.buf.len() == at_line.len(),
                    self.buf.len() == src.buf.len(),
                    self.w == old(self).w,
                    self.h == old(self).h,
                    self.buf@ == copy_range(at_line, src.buf@, start as int, i as int),
                decreases end - i,
            {
                self.buf[i] = src.buf[i];
                assert(self.buf@ =~= copy_range(at_line, src.buf@, start as int, i + 1));
                i += 1;
            }
            n += 1;
        }
        assert(lines@.take(lines.len() as int) =~= lines@);
    }

    /// Composites the colour `a` over the pixels of `lines`, span after
    /// span.
    pub fn draw_lines(&mut self, a: &Color, lines: &[Scanline])
        requires
            old(self).wf(),
            all_within(lines@, old(self).w, old(self).h),
        ensures
            final(self).wf(),
            final(self).same_size(old(self)),
            final(self).buf@ == drawn(old(self).buf@, old(self).w as int, *a, lines@),
    {
        self::draw_lines(&mut self.buf, self.w, self.h, a, lines);
    }

    /// The squared distance of `after` from `target`, from the squared
    /// distance `score` of `before`: `score`, less the squared differences
    /// between `target` and `before` on the pixels of `lines`, plus those
    /// between `target` and `after` there. A result below zero is given as
    /// zero, one above the range of the score as the end of that range.
    pub fn difference_partial(
        target: &Pixels,
        before: &Pixels,
        after: &Pixels,
        score: u64,
        lines: &[Scanline],
    ) -> (total: u64)
        requires
            target.wf(),
            before.wf(),
            after.wf(),
            target.same_size(before),
            target.same_size(after),
            all_within(lines@, target.w, target.h),
        ensures
            total == partial_err(
                target.buf@,
                before.buf@,
                after.buf@,
                target.w as int,
                score as int,
                lines@,
            ),
    {
        let w: usize = target.w;
        let mut removed: u128 = 0;
        let mut added: u128 = 0;
        let mut n: usize = 0;
        assert(lines@.take(0) =~= Seq::<Scanline>::empty());
        while n < lines.len()
            invariant
                n <= lines.len(),
                target.wf(),
                before.wf(),
                after.wf(),
                target.same_size(before),
                target.same_size(after),
                w == target.w,
                all_within(lines@, target.w, target.h),
                removed == lines_err(target.buf@, before.buf@, w as int, lines@.take(n as int)),
                added == lines_err(target.buf@, after.buf@, w as int, lines@.take(n as int)),
                removed <= 0x1_0000_0000_0000 * n,
                added <= 0x1_0000_0000_0000 * n,
            decreases lines.len() - n,
        {
            let line: Scanline = lines[n];
            proof {
                assert(line.within(target.w, target.h));
                lemma_span_bytes(target.w, target.h, line);
                lemma_width_bound(target.w, target.h, line);
                assert(lines@.take(n + 1).drop_last() =~= lines@.take(n as int));
                assert(lines@.take(n + 1).last() == line);
            }
            let start: usize = 4 * (line.y * w + line.x1);
            let end: usize = start + 4 * (line.x2 - line.x1 + 1);
            let mut gone: u64 = 0;
            let mut come: u64 = 0;
            let mut i: usize = start;
            while i < end
                invariant
                    start <= i <= end,
                    end - start <= 0x4000_0000,
                    end <= target.buf.len(),
                    target.buf.len() == before.buf.len(),
                    target.buf.len() == after.buf.len(),
                    gone == range_err(target.buf@, before.buf@, start as int, i as int),
                    come == range_err(target.buf@, after.buf@, start as int, i as int),
                    gone <= 65025 * (i - start),
                    come <= 65025 * (i - start),
                decreases end - i,
            {
                gone += square_diff(target.buf[i], before.buf[i]);
                come += square_diff(target.buf[i], after.buf[i]);
                i += 1;
            }
            removed += gone as u128;
            added += come as u128;
            n += 1;
        }
        assert(lines@.take(lines.len() as int) =~= lines@);
        let gross: u128 = score as u128 + added;
        if removed >= gross {
            0
        } else if gross - removed > u64::MAX as u128 {
            u64::MAX
        } else {
            (gross - removed) as u64
        }
    }

    /// Fills the canvas with `color`.
    pub fn erase(&mut self, color: &Color)
        requires
            old(self).wf(),
        ensures
            final(self).wf(),
            final(self).w == old(self).w,
            final(self).h == old(self).h,
            final(self).buf@ == erased(old(self).buf@.len(), *color),
    {
        self::erase(&mut self.buf, color);
    }
}

/// The bytes `buf` with the four at `i` replaced by the channels of `c`.
pub open spec fn put_bytes(buf: Seq<u8>, i: int, c: Color) -> Seq<u8> {
    buf.update(i, c.spec_r()).update(i + 1, c.spec_g()).update(i + 2, c.spec_b()).update(
        i + 3,
        c.spec_a(),
    )
}

/// A span on a canvas is no longer than the canvas has pixels.
pub proof fn lemma_width_bound(w: usize, h: usize, line: Scanline)
    requires
        line.within(w, h),
        w * h <= MAX_AREA,
    ensures
        line.x2 - line.x1 + 1 <= w <= MAX_AREA,
{
    assert(w <= w * h) by (nonlinear_arith)
        requires
            h >= 1,
            w >= 0,
    ;
}

/// What one pixel adds to the sum from which the best colour is taken.
pub fn fit(t: u8, c: u8, a: i64) -> (v: i64)
    requires
        0 <= a <= 65535,
    ensures
        v == fit_term(t, c, a as int),
        -0x100_0000 <= v <= 0x100_0000,
{
    let d: i64 = t as i64 - c as i64;
    assert(-255 * 65535 <= d * a <= 255 * 65535) by (nonlinear_arith)
        requires
            -255 <= d <= 255,
            0 <= a <= 65535,
    ;
    d * a + (c as i64) * 257
}

/// The channel that fits best, from the sum over `count` pixels.
pub fn fit_channel(sum: i128, count: i128) -> (v: u8)
    requires
        count > 0,
    ensures
        v == best_channel(sum as int, count as int),
{
    if sum < 0 {
        proof {
            lemma_round_negative(sum as int, 256 * count);
        }
        return 0;
    }
    proof {
        lemma_round_mean(sum as int, count as int);
    }
    let mean: i128 = sum / count;
    if mean >= 65152 {
        255
    } else {
        ((mean + 128) / 256) as u8
    }
}

/// The square of the difference of two bytes.
pub fn square_diff(a: u8, b: u8) -> (d: u64)
    ensures
        d == sq(a, b),
        d <= 65025,
{
    let x: u64 = if a >= b { (a - b) as u64 } else { (b - a) as u64 };
    assert(x * x == (a - b) * (a - b) && x * x <= 65025) by (nonlinear_arith)
        requires
            x == (if a >= b { a - b } else { b - a }),
            0 <= x <= 255,
    ;
    x * x
}

/// The number of pixels of a canvas of `w` by `h`.
pub fn area_of(w: usize, h: usize) -> (n: usize)
    requires
        w * h <= MAX_AREA,
    ensures
        n == w * h,
{
    if w == 0 || h == 0 {
        assert(w * h == 0) by (nonlinear_arith)
            requires
                w == 0 || h == 0,
        ;
        return 0;
    }
    assert(w <= MAX_AREA && h <= MAX_AREA) by (nonlinear_arith)
        requires
            w * h <= MAX_AREA,
            w >= 1,
            h >= 1,
    ;
    w * h
}

/// One colour channel of the source `s` with alpha `sa`, composited over
/// the destination channel `d` with alpha `da`:
/// `(s * sa + d * da * (255 - sa) / 255) / 256`.
pub open spec fn blend_channel(s: int, sa: int, d: int, da: int) -> int {
    (s * sa + (d * da * (255 - sa)) / 255) / 256
}

/// The alpha of a source with alpha `sa` composited over a destination
/// with alpha `da`: `sa + da * (255 - sa) / 255`.
pub open spec fn blend_alpha(sa: int, da: int) -> int {
    sa + (da * (255 - sa)) / 255
}

/// The `k`-th byte of `buf` after `c` was composited over the pixel that
/// the byte belongs to.
pub open spec fn blended_byte(buf: Seq<u8>, c: Color, k: int) -> u8 {
    let p = k - k % 4;
    let da = buf[p + 3] as int;
    if k % 4 == 3 {
        blend_alpha(c.spec_a() as int, da) as u8
    } else {
        blend_channel(c.channel(k % 4) as int, c.spec_a() as int, buf[k] as int, da) as u8
    }
}

/// The bytes `buf` after `c` was composited over the pixels whose bytes
/// are `start..end`.
pub open spec fn draw_range(buf: Seq<u8>, c: Color, start: int, end: int) -> Seq<u8> {
    Seq::new(
        buf.len(),
        |k: int|
            if start <= k < end {
                blended_byte(buf, c, k)
            } else {
                buf[k]
            },
    )
}

/// The bytes of a canvas `w` wide after `c` was composited over the pixels
/// of `line`.
pub open spec fn draw_span(buf: Seq<u8>, w: int, c: Color, line: Scanline) -> Seq<u8> {
    draw_range(buf, c, span_start(w, line), span_end(w, line))
}

/// The bytes of a canvas `w` wide after `c` was composited over the spans
/// `lines`, one after the other.
pub open spec fn drawn(buf: Seq<u8>, w: int, c: Color, lines: Seq<Scanline>) -> Seq<u8>
    decreases lines.len(),
{
    if lines.len() == 0 {
        buf
    } else {
        draw_span(drawn(buf, w, c, lines.drop_last()), w, c, lines.last())
    }
}

/// A composited channel is a byte, and the alpha of what is composited
/// over an opaque pixel is opaque.
pub proof fn lemma_blend_bounds(s: int, sa: int, d: int, da: int)
    requires
        0 <= s <= 255,
        0 <= sa <= 255,
        0 <= d <= 255,
        0 <= da <= 255,
    ensures
        0 <= d * da <= 65025,
        0 <= s * sa <= 65025,
        0 <= d * da * (255 - sa) <= 16581375,
        0 <= da * (255 - sa) <= 65025,
        0 <= s * sa + (d * da * (255 - sa)) / 255 <= 65025,
        0 <= blend_channel(s, sa, d, da) <= 254,
        0 <= blend_alpha(sa, da) <= 255,
        da == 255 ==> blend_alpha(sa, da) == 255,
{
    let diff = 255 - sa;
    assert(0 <= d * da <= 65025 && 0 <= s * sa <= 255 * sa && 0 <= da * diff <= 255 * diff)
        by (nonlinear_arith)
        requires
            0 <= s <= 255,
            0 <= sa <= 255,
            0 <= d <= 255,
            0 <= da <= 255,
            diff == 255 - sa,
    ;
    assert(0 <= d * da * diff <= 65025 * diff) by (nonlinear_arith)
        requires
            0 <= d * da <= 65025,
            0 <= diff <= 255,
    ;
    assert((d * da * diff) / 255 <= 255 * diff) by (nonlinear_arith)
        requires
            0 <= d * da * diff <= 65025 * diff,
    ;
    assert((da * diff) / 255 <= diff) by (nonlinear_arith)
        requires
            0 <= da * diff <= 255 * diff,
    ;
    if da == 255 {
        assert((255 * diff) / 255 == diff) by (nonlinear_arith);
    }
}

/// Composites the colour `a` over the pixels of `lines` on the canvas of
/// `w` by `h` pixels whose bytes are `buf`, span after span.
pub fn draw_lines(buf: &mut Vec<u8>, w: usize, h: usize, a: &Color, lines: &[Scanline])
    requires
        old(buf).len() == 4 * (w * h),
        all_within(lines@, w, h),
    ensures
        final(buf)@ == drawn(old(buf)@, w as int, *a, lines@),
        final(buf).len() == old(buf).len(),
{
    let aa: u32 = a.a() as u32;
    proof {
        lemma_blend_bounds(a.spec_r() as int, aa as int, 0, 0);
        lemma_blend_bounds(a.spec_g() as int, aa as int, 0, 0);
        lemma_blend_bounds(a.spec_b() as int, aa as int, 0, 0);
    }
    let ar: u32 = a.r() as u32 * aa;
    let ag: u32 = a.g() as u32 * aa;
    let ab: u32 = a.b() as u32 * aa;
    let diff: u32 = 255 - aa;
    let ghost before = buf@;
    let mut n: usize = 0;
    assert(lines@.take(0) =~= Seq::<Scanline>::empty());
    while n < lines.len()
        invariant
            n <= lines.len(),
            buf.len() == 4 * (w * h),
            all_within(lines@, w, h),
            aa == a.spec_a(),
            ar == a.spec_r() * aa,
            ag == a.spec_g() * aa,
            ab == a.spec_b() * aa,
            diff == 255 - aa,
            buf@ == drawn(before, w as int, *a, lines@.take(n as int)),
        decreases lines.len() - n,
    {
        let line: Scanline = lines[n];
        let ghost at_line = buf@;
        proof {
            assert(line.within(w, h));
            lemma_span_bytes(w, h, line);
            assert(lines@.take(n + 1).drop_last() =~= lines@.take(n as int));
            assert(lines@.take(n + 1).last() == line);
            assert(at_line =~= draw_range(at_line, *a, span_start(w as int, line), span_start(w as int, line)));
        }
        let start: usize = 4 * (line.y * w + line.x1);
        let end: usize = start + 4 * (line.x2 - line.x1 + 1);
        let mut i: usize = start;
        while i < end
            invariant
                start <= i <= end,
                i % 4 == 0,
                start % 4 == 0,
                end % 4 == 0,
                end <= buf.len(),
                buf.len() == at_line.len(),
                aa == a.spec_a(),
                ar == a.spec_r() * aa,
                ag == a.spec_g() * aa,
                ab == a.spec_b() * aa,
                diff == 255 - aa,
                buf@ == draw_range(at_line, *a, start as int, i as int),
            decreases end - i,
        {
            let ghost prev = buf@;
            let ba: u32 = buf[i + 3] as u32;
            let d0: u32 = buf[i] as u32;
            let d1: u32 = buf[i + 1] as u32;
            let d2: u32 = buf[i + 2] as u32;
            proof {
                lemma_blend_bounds(a.spec_r() as int, aa as int, d0 as int, ba as int);
                lemma_blend_bounds(a.spec_g() as int, aa as int, d1 as int, ba as int);
                lemma_blend_bounds(a.spec_b() as int, aa as int, d2 as int, ba as int);
            }
            let br: u32 = d0 * ba;
            let bg: u32 = d1 * ba;
            let bb: u32 = d2 * ba;
            buf[i] = ((ar + br * diff / 255) / 256) as u8;
            buf[i + 1] = ((ag + bg * diff / 255) / 256) as u8;
            buf[i + 2] = ((ab + bb * diff / 255) / 256) as u8;
            buf[i + 3] = (aa + ba * diff / 255) as u8;
            proof {
                let next = draw_range(at_line, *a, start as int, i + 4);
                assert(prev[i as int] == at_line[i as int]);
                assert(prev[i + 1] == at_line[i + 1]);
                assert(prev[i + 2] == at_line[i + 2]);
                assert(prev[i + 3] == at_line[i + 3]);
                assert(buf@ =~= next);
            }
            i += 4;
        }
        n += 1;
    }
    assert(lines@.take(lines.len() as int) =~= lines@);
}

/// The bytes `dst` with those of `start..end` taken from `src`.
pub open spec fn copy_range(dst: Seq<u8>, src: Seq<u8>, start: int, end: int) -> Seq<u8> {
    Seq::new(
        dst.len(),
        |k: int|
            if start <= k < end {
                src[k]
            } else {
                dst[k]
            },
    )
}

/// The bytes `dst` of a canvas `w` wide with the pixels of the spans
/// `lines` taken from `src`.
pub open spec fn copied(dst: Seq<u8>, src: Seq<u8>, w: int, lines: Seq<Scanline>) -> Seq<u8>
    decreases lines.len(),
{
    if lines.len() == 0 {
        dst
    } else {
        copy_range(
            copied(dst, src, w, lines.drop_last()),
            src,
            span_start(w, lines.last()),
            span_end(w, lines.last()),
        )
    }
}

/// The square of the difference of two bytes.
pub open spec fn sq(a: u8, b: u8) -> int {
    (a - b) * (a - b)
}

/// The sum of the squared differences between the bytes `start..end` of
/// `t` and of `c`.
pub open spec fn range_err(t: Seq<u8>, c: Seq<u8>, start: int, end: int) -> int
    decreases end - start,
{
    if start >= end {
        0
    } else {
        range_err(t, c, start, end - 1) + sq(t[end - 1], c[end - 1])
    }
}

/// The sum of the squared differences between all bytes of `t` and of
/// `c`: the squared distance of two canvases over all four channels.
pub open spec fn sq_err(t: Seq<u8>, c: Seq<u8>) -> int {
    range_err(t, c, 0, t.len() as int)
}

/// The sum, over the spans `lines` of a canvas `w` wide, of the squared
/// differences between the bytes of `t` and of `c` on the span.
pub open spec fn lines_err(t: Seq<u8>, c: Seq<u8>, w: int, lines: Seq<Scanline>) -> int
    decreases lines.len(),
{
    if lines.len() == 0 {
        0
    } else {
        lines_err(t, c, w, lines.drop_last()) + range_err(
            t,
            c,
            span_start(w, lines.last()),
            span_end(w, lines.last()),
        )
    }
}

/// A squared difference of bytes is at most 255 squared, so the squared
/// distance over a range is at most that for each byte.
pub proof fn lemma_range_err_bound(t: Seq<u8>, c: Seq<u8>, start: int, end: int)
    ensures
        0 <= range_err(t, c, start, end) <= 65025 * (if end > start { end - start } else { 0 }),
    decreases end - start,
{
    if start < end {
        lemma_range_err_bound(t, c, start, end - 1);
        let a = t[end - 1] as int;
        let b = c[end - 1] as int;
        assert(0 <= (a - b) * (a - b) <= 65025) by (nonlinear_arith)
            requires
                0 <= a <= 255,
                0 <= b <= 255,
        ;
    }
}

/// What one pixel adds to the sum from which the best colour is taken:
/// `(t - c) * a + c * 257` for the target channel `t`, the current channel
/// `c` and the weight `a`.
pub open spec fn fit_term(t: u8, c: u8, a: int) -> int {
    (t - c) * a + c * 257
}

/// The sum of `fit_term` for channel `ch` over the `n` pixels whose bytes
/// start at `start`.
pub open spec fn fit_sum(t: Seq<u8>, c: Seq<u8>, a: int, ch: int, start: int, n: int) -> int
    decreases n,
{
    if n <= 0 {
        0
    } else {
        fit_sum(t, c, a, ch, start, n - 1) + fit_term(
            t[start + 4 * (n - 1) + ch],
            c[start + 4 * (n - 1) + ch],
            a,
        )
    }
}

/// The sum of `fit_term` for channel `ch` over the pixels of the spans
/// `lines` of a canvas `w` wide.
pub open spec fn lines_fit(
    t: Seq<u8>,
    c: Seq<u8>,
    w: int,
    a: int,
    ch: int,
    lines: Seq<Scanline>,
) -> int
    decreases lines.len(),
{
    if lines.len() == 0 {
        0
    } else {
        lines_fit(t, c, w, a, ch, lines.drop_last()) + fit_sum(
            t,
            c,
            a,
            ch,
            span_start(w, lines.last()),
            lines.last().x2 - lines.last().x1 + 1,
        )
    }
}

/// The number of pixels of the spans `lines`.
pub open spec fn lines_area(lines: Seq<Scanline>) -> int
    decreases lines.len(),
{
    if lines.len() == 0 {
        0
    } else {
        lines_area(lines.drop_last()) + (lines.last().x2 - lines.last().x1 + 1)
    }
}

/// The channel that fits best: the mean of the sum over `count` pixels,
/// divided by 256, rounded to the nearest whole number and limited to a
/// byte.
pub open spec fn best_channel(sum: int, count: int) -> int {
    spec_clamp(round_div(sum, 256 * count), 0, 255)
}

/// The colour of alpha `alpha` that, composited over the pixels of `lines`
/// on the canvas `c`, comes closest to the target `t`; transparent black
/// where `lines` holds no pixel.
pub open spec fn best_color(t: Seq<u8>, c: Seq<u8>, w: int, lines: Seq<Scanline>, alpha: u8) -> Color {
    let a = 65535int / (alpha as int);
    let n = lines_area(lines);
    if n == 0 {
        Color::of(0, 0, 0, 0)
    } else {
        Color::of(
            best_channel(lines_fit(t, c, w, a, 0, lines), n) as u8,
            best_channel(lines_fit(t, c, w, a, 1, lines), n) as u8,
            best_channel(lines_fit(t, c, w, a, 2, lines), n) as u8,
            alpha,
        )
    }
}

/// The score after a change on the spans `lines`: the score `prior` of the
/// canvas `before`, less what the spans added to it there, plus what they
/// add on the canvas `after`; limited to the range of the score.
pub open spec fn partial_err(
    t: Seq<u8>,
    before: Seq<u8>,
    after: Seq<u8>,
    w: int,
    prior: int,
    lines: Seq<Scanline>,
) -> int {
    spec_clamp(
        prior - lines_err(t, before, w, lines) + lines_err(t, after, w, lines),
        0,
        u64::MAX as int,
    )
}

/// The sum of channel `ch` over the first `n` pixels.
pub open spec fn channel_sum(buf: Seq<u8>, ch: int, n: int) -> int
    decreases n,
{
    if n <= 0 {
        0
    } else {
        channel_sum(buf, ch, n - 1) + buf[4 * (n - 1) + ch]
    }
}

/// Filling a canvas twice with one colour is filling it once.
pub proof fn lemma_erase_idempotent(len: nat, c: Color)
    ensures
        erased(erased(len, c).len(), c) == erased(len, c),
{
}

} // verus!
