//! A canvas that already meets a target of one colour: what a stamp does
//! to it.

use vstd::prelude::*;
use crate::canvas::{
    Pixels, best_channel, best_color, blend_channel, blended_byte, channel_sum, drawn,
    erased, fit_sum, lemma_blend_bounds, lemma_span_bytes, lines_area, lines_fit, span_start,
};
use crate::color::Color;
use crate::metric::{in_span, lemma_drawn_inside, lemma_drawn_outside};
use crate::numeric::{lemma_round_mean, round_div};
use crate::scanline::{Scanline, all_within, pairwise_disjoint};

verus! {

/// The channels of a canvas of one colour add up to the channel of the
/// colour for each pixel.
pub proof fn lemma_channel_sum_plain(len: nat, c: Color, ch: int, n: int)
    requires
        0 <= ch < 4,
        0 <= n,
        4 * n <= len,
    ensures
        channel_sum(erased(len, c), ch, n) == n * c.channel(ch),
    decreases n,
{
    if n > 0 {
        lemma_channel_sum_plain(len, c, ch, n - 1);
        let v = c.channel(ch) as int;
        assert(erased(len, c)[4 * (n - 1) + ch] == c.channel(ch));
        assert(n * v == (n - 1) * v + v) by (nonlinear_arith);
    }
}

/// The average colour of a canvas of one opaque colour is that colour.
pub proof fn lemma_average_plain(p: Pixels, c: Color)
    requires
        p.wf(),
        p.w * p.h > 0,
        p.buf@ == erased(p.buf@.len(), c),
        c.spec_a() == 255,
    ensures
        p.spec_average() == c,
{
    let n = (p.w * p.h) as int;
    let len = p.buf@.len();
    lemma_channel_sum_plain(len, c, 0, n);
    lemma_channel_sum_plain(len, c, 1, n);
    lemma_channel_sum_plain(len, c, 2, n);
    let (r, g, b) = (c.spec_r() as int, c.spec_g() as int, c.spec_b() as int);
    assert((n * r) / n == r && (n * g) / n == g && (n * b) / n == b) by (nonlinear_arith)
        requires
            n > 0,
    ;
    c.lemma_channels_make();
}

/// Where the target and the canvas hold one colour, every pixel adds 257
/// times its channel to the sum from which the best colour is taken.
pub proof fn lemma_fit_sum_plain(len: nat, u: Color, a: int, ch: int, start: int, n: int)
    requires
        0 <= ch < 4,
        0 <= n,
        0 <= start,
        start % 4 == 0,
        start + 4 * n <= len,
    ensures
        fit_sum(erased(len, u), erased(len, u), a, ch, start, n) == n * (u.channel(ch) * 257),
    decreases n,
{
    if n > 0 {
        lemma_fit_sum_plain(len, u, a, ch, start, n - 1);
        let v = u.channel(ch) as int;
        let k = start + 4 * (n - 1) + ch;
        assert(k % 4 == ch);
        assert(erased(len, u)[k] == u.channel(ch));
        assert((v - v) * a + v * 257 == v * 257) by (nonlinear_arith);
        assert(n * (v * 257) == (n - 1) * (v * 257) + v * 257) by (nonlinear_arith);
    }
}

/// Where the target and the canvas hold one colour, the sum from which the
/// best colour is taken is 257 times the channel for each pixel of the
/// spans, and spans that are not empty hold a pixel.
pub proof fn lemma_lines_fit_plain(
    w: usize,
    h: usize,
    u: Color,
    a: int,
    ch: int,
    lines: Seq<Scanline>,
)
    requires
        0 <= ch < 4,
        all_within(lines, w, h),
    ensures
        lines_fit(
            erased((4 * (w * h)) as nat, u),
            erased((4 * (w * h)) as nat, u),
            w as int,
            a,
            ch,
            lines,
        ) == lines_area(lines) * (u.channel(ch) * 257),
        lines_area(lines) >= lines.len(),
    decreases lines.len(),
{
    if lines.len() > 0 {
        let init = lines.drop_last();
        let last = lines.last();
        assert(last == lines[lines.len() - 1]);
        assert forall|i: int| 0 <= i < init.len() implies (#[trigger] init[i]).within(w, h) by {
            assert(init[i] == lines[i]);
        }
        lemma_lines_fit_plain(w, h, u, a, ch, init);
        lemma_span_bytes(w, h, last);
        let n = last.x2 - last.x1 + 1;
        lemma_fit_sum_plain((4 * (w * h)) as nat, u, a, ch, span_start(w as int, last), n);
        let (m, v) = (lines_area(init), u.channel(ch) * 257);
        assert((m + n) * v == m * v + n * v) by (nonlinear_arith);
    }
}

/// The best channel over pixels that all hold `v` in the target and on the
/// canvas is `v`, or `v + 1` from 128 on, but 255 at most.
pub proof fn lemma_best_channel_plain(v: int, n: int)
    requires
        0 <= v <= 255,
        n > 0,
    ensures
        v <= best_channel(n * (v * 257), n) <= v + 1,
        best_channel(n * (v * 257), n) <= 255,
{
    let m = v * 257;
    assert(n * m >= 0 && (n * m) / n == m) by (nonlinear_arith)
        requires
            n > 0,
            m >= 0,
    ;
    lemma_round_mean(n * m, n);
    assert(round_div(n * m, 256 * n) == (m + 128) / 256);
}

/// A colour whose channel is `v` or `v + 1`, composited at any alpha over
/// an opaque pixel whose channel is `v`, leaves `v` or `v - 1` there.
pub proof fn lemma_blend_near(s: int, sa: int, v: int)
    requires
        0 <= v <= 255,
        v <= s <= v + 1,
        s <= 255,
        0 <= sa <= 255,
    ensures
        v - 1 <= blend_channel(s, sa, v, 255) <= v,
        0 <= blend_channel(s, sa, v, 255),
{
    let diff = 255 - sa;
    let kept = (v * 255 * diff) / 255;
    assert(kept == v * diff) by (nonlinear_arith)
        requires
            kept == (v * 255 * diff) / 255,
    ;
    let x = s * sa + kept;
    assert(255 * v <= x <= 255 * v + 255) by (nonlinear_arith)
        requires
            x == s * sa + v * diff,
            diff == 255 - sa,
            v <= s <= v + 1,
            0 <= sa <= 255,
            0 <= v,
    ;
}

/// Where a canvas of `w` by `h` pixels holds the one opaque colour `u`
/// that its target holds, and a colour of the alpha `alpha` is fitted to
/// the spans `lines` and composited over them: a pixel outside the spans
/// keeps the colour `u`, and a pixel of the spans stays opaque and has each
/// of its channels within one of that of `u`, never above it.
pub proof fn lemma_stamp_on_plain(
    w: usize,
    h: usize,
    u: Color,
    alpha: u8,
    lines: Seq<Scanline>,
    k: int,
)
    requires
        all_within(lines, w, h),
        pairwise_disjoint(lines),
        u.spec_a() == 255,
        alpha > 0,
        0 <= k < 4 * (w * h),
    ensures
        ({
            let t = erased((4 * (w * h)) as nat, u);
            let after = drawn(t, w as int, best_color(t, t, w as int, lines, alpha), lines);
            let covered = exists|i: int|
                0 <= i < lines.len() && in_span(w as int, #[trigger] lines[i], k);
            &&& after.len() == t.len()
            &&& !covered ==> after[k] == u.channel(k % 4)
            &&& covered && k % 4 == 3 ==> after[k] == 255
            &&& covered && k % 4 != 3 ==> u.channel(k % 4) - 1 <= after[k] <= u.channel(k % 4)
        }),
{
    let t = erased((4 * (w * h)) as nat, u);
    let wi = w as int;
    let c = best_color(t, t, wi, lines, alpha);
    let after = drawn(t, wi, c, lines);
    lemma_drawn_outside(t, wi, c, lines);
    if exists|i: int| 0 <= i < lines.len() && in_span(wi, #[trigger] lines[i], k) {
        let i = choose|i: int| 0 <= i < lines.len() && in_span(wi, #[trigger] lines[i], k);
        lemma_drawn_inside(t, w, h, c, lines, i, k);
        let a = 65535int / (alpha as int);
        let n = lines_area(lines);
        lemma_lines_fit_plain(w, h, u, a, 0, lines);
        lemma_lines_fit_plain(w, h, u, a, 1, lines);
        lemma_lines_fit_plain(w, h, u, a, 2, lines);
        lemma_best_channel_plain(u.spec_r() as int, n);
        lemma_best_channel_plain(u.spec_g() as int, n);
        lemma_best_channel_plain(u.spec_b() as int, n);
        Color::lemma_of_channels(
            best_channel(lines_fit(t, t, wi, a, 0, lines), n) as u8,
            best_channel(lines_fit(t, t, wi, a, 1, lines), n) as u8,
            best_channel(lines_fit(t, t, wi, a, 2, lines), n) as u8,
            alpha,
        );
        let ch = k % 4;
        let p = k - ch;
        lemma_span_bytes(w, h, lines[i]);
        assert(t[p + 3] == 255);
        assert(t[k] == u.channel(ch));
        assert(after[k] == blended_byte(t, c, k));
        assert(n > 0);
        assert(c.spec_a() == alpha);
        if ch == 3 {
            lemma_blend_bounds(0, alpha as int, 0, 255);
            assert(after[k] == 255);
        } else {
            let v = u.channel(ch) as int;
            let s = c.channel(ch) as int;
            assert(v <= s <= v + 1 && s <= 255);
            lemma_blend_near(s, alpha as int, v);
            lemma_blend_bounds(s, alpha as int, v, 255);
            assert(v - 1 <= after[k] <= v);
        }
    } else {
        assert forall|i: int| 0 <= i < lines.len() implies !in_span(wi, #[trigger] lines[i], k) by {}
        assert(after[k] == t[k]);
    }
}

} // verus!
