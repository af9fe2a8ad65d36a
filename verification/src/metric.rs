//! How the squared distance of a canvas changes when spans of it change.

use vstd::prelude::*;
use crate::color::Color;
use crate::scanline::{Scanline, all_within, pairwise_disjoint};
use crate::canvas::{
    MAX_AREA, span_start, span_end, lemma_span_bytes, draw_range, drawn, range_err,
    sq_err, lines_err, partial_err, lemma_range_err_bound, blended_byte, copied,
    erased, lemma_blend_bounds,
};

verus! {

/// The squared distance over a range is that over its two parts.
pub proof fn lemma_range_err_split(t: Seq<u8>, c: Seq<u8>, a: int, b: int, d: int)
    requires
        a <= b <= d,
    ensures
        range_err(t, c, a, d) == range_err(t, c, a, b) + range_err(t, c, b, d),
    decreases d - b,
{
    if b < d {
        lemma_range_err_split(t, c, a, b, d - 1);
    }
}

/// The squared distance over a range needs the bytes of that range only.
pub proof fn lemma_range_err_ext(t: Seq<u8>, c1: Seq<u8>, c2: Seq<u8>, a: int, b: int)
    requires
        forall|k: int| a <= k < b ==> c1[k] == c2[k],
    ensures
        range_err(t, c1, a, b) == range_err(t, c2, a, b),
    decreases b - a,
{
    if a < b {
        lemma_range_err_ext(t, c1, c2, a, b - 1);
    }
}

/// Where two canvases differ on the bytes `a..b` only, their squared
/// distances differ by what those bytes add.
pub proof fn lemma_err_changed_range(t: Seq<u8>, c1: Seq<u8>, c2: Seq<u8>, a: int, b: int)
    requires
        0 <= a <= b <= t.len(),
        forall|k: int| 0 <= k < t.len() && !(a <= k < b) ==> c1[k] == c2[k],
    ensures
        sq_err(t, c2) == sq_err(t, c1) - range_err(t, c1, a, b) + range_err(t, c2, a, b),
{
    let n = t.len() as int;
    lemma_range_err_split(t, c1, 0, a, n);
    lemma_range_err_split(t, c1, a, b, n);
    lemma_range_err_split(t, c2, 0, a, n);
    lemma_range_err_split(t, c2, a, b, n);
    lemma_range_err_ext(t, c1, c2, 0, a);
    lemma_range_err_ext(t, c1, c2, b, n);
}

/// The byte `k` belongs to a pixel of `line` on a canvas `w` wide.
pub open spec fn in_span(w: int, line: Scanline, k: int) -> bool {
    span_start(w, line) <= k < span_end(w, line)
}

/// Spans of a canvas that share no pixel share no byte.
pub proof fn lemma_disjoint_bytes(w: usize, h: usize, a: Scanline, b: Scanline)
    requires
        a.within(w, h),
        b.within(w, h),
        !a.meets(b),
    ensures
        span_end(w as int, a) <= span_start(w as int, b) || span_end(w as int, b) <= span_start(
            w as int,
            a,
        ),
{
    lemma_span_bytes(w, h, a);
    lemma_span_bytes(w, h, b);
    let wi = w as int;
    let ya = a.y as int;
    let yb = b.y as int;
    if ya < yb {
        assert((ya + 1) * wi <= yb * wi) by (nonlinear_arith)
            requires
                ya + 1 <= yb,
                0 <= wi,
        ;
    } else if yb < ya {
        assert((yb + 1) * wi <= ya * wi) by (nonlinear_arith)
            requires
                yb + 1 <= ya,
                0 <= wi,
        ;
    }
}

/// Compositing over spans keeps the number of bytes and leaves the bytes
/// outside all the spans as they were.
pub proof fn lemma_drawn_outside(buf: Seq<u8>, w: int, c: Color, lines: Seq<Scanline>)
    ensures
        drawn(buf, w, c, lines).len() == buf.len(),
        forall|k: int|
            0 <= k < buf.len() && (forall|i: int|
                0 <= i < lines.len() ==> !in_span(w, #[trigger] lines[i], k)) ==> drawn(
                buf,
                w,
                c,
                lines,
            )[k] == buf[k],
    decreases lines.len(),
{
    if lines.len() > 0 {
        let init = lines.drop_last();
        lemma_drawn_outside(buf, w, c, init);
        let prev = drawn(buf, w, c, init);
        assert forall|k: int|
            0 <= k < buf.len() && (forall|i: int|
                0 <= i < lines.len() ==> !in_span(w, #[trigger] lines[i], k)) implies drawn(
            buf,
            w,
            c,
            lines,
        )[k] == buf[k] by {
            assert(!in_span(w, lines[lines.len() - 1], k));
            assert forall|i: int| 0 <= i < init.len() implies !in_span(w, #[trigger] init[i], k) by {
                assert(init[i] == lines[i]);
            }
        }
    }
}

/// The squared distance over spans needs the bytes of those spans only.
pub proof fn lemma_lines_err_ext(
    t: Seq<u8>,
    c1: Seq<u8>,
    c2: Seq<u8>,
    w: int,
    lines: Seq<Scanline>,
)
    requires
        forall|i: int, k: int|
            0 <= i < lines.len() && in_span(w, #[trigger] lines[i], k) ==> #[trigger] c1[k]
                == c2[k],
    ensures
        lines_err(t, c1, w, lines) == lines_err(t, c2, w, lines),
    decreases lines.len(),
{
    if lines.len() > 0 {
        let init = lines.drop_last();
        let last = lines.last();
        assert forall|i: int, k: int|
            0 <= i < init.len() && in_span(w, #[trigger] init[i], k) implies #[trigger] c1[k]
            == c2[k] by {
            assert(init[i] == lines[i]);
        }
        lemma_lines_err_ext(t, c1, c2, w, init);
        assert forall|k: int| span_start(w, last) <= k < span_end(w, last) implies c1[k]
            == c2[k] by {
            assert(in_span(w, lines[lines.len() - 1], k));
        }
        lemma_range_err_ext(t, c1, c2, span_start(w, last), span_end(w, last));
    }
}

/// The score kept up span by span is the score taken anew: where `after`
/// is `before` with the colour `c` composited over spans that lie on the
/// canvas and share no pixel, the squared distance of `before` from the
/// target `t`, less what the spans add to it on `before`, plus what they add
/// on `after`, is the squared distance of `after` from `t`.
pub proof fn lemma_partial_is_full(
    t: Seq<u8>,
    before: Seq<u8>,
    w: usize,
    h: usize,
    c: Color,
    lines: Seq<Scanline>,
)
    requires
        t.len() == 4 * (w * h),
        before.len() == 4 * (w * h),
        all_within(lines, w, h),
        pairwise_disjoint(lines),
    ensures
        sq_err(t, before) - lines_err(t, before, w as int, lines) + lines_err(
            t,
            drawn(before, w as int, c, lines),
            w as int,
            lines,
        ) == sq_err(t, drawn(before, w as int, c, lines)),
    decreases lines.len(),
{
    let wi = w as int;
    if lines.len() > 0 {
        let init = lines.drop_last();
        let last = lines.last();
        let prev = drawn(before, wi, c, init);
        let after = drawn(before, wi, c, lines);
        let s = span_start(wi, last);
        let e = span_end(wi, last);
        assert(last == lines[lines.len() - 1]);
        assert(last.within(w, h));
        lemma_span_bytes(w, h, last);
        assert forall|i: int| 0 <= i < init.len() implies (#[trigger] init[i]).within(w, h) by {
            assert(init[i] == lines[i]);
        }
        assert forall|i: int, j: int| 0 <= i < j < init.len() implies !(#[trigger] init[i]).meets(
            #[trigger] init[j],
        ) by {
            assert(init[i] == lines[i] && init[j] == lines[j]);
        }
        lemma_partial_is_full(t, before, w, h, c, init);
        lemma_drawn_outside(before, wi, c, init);
        // the last span lies apart from all the others
        assert forall|i: int| 0 <= i < init.len() implies span_end(wi, #[trigger] init[i]) <= s
            || e <= span_start(wi, init[i]) by {
            assert(init[i] == lines[i]);
            lemma_disjoint_bytes(w, h, lines[i], lines[lines.len() - 1]);
        }
        // on the last span the canvas was untouched until now
        assert forall|k: int| s <= k < e implies prev[k] == before[k] by {
            assert forall|i: int| 0 <= i < init.len() implies !in_span(wi, #[trigger] init[i], k) by {}
        }
        lemma_range_err_ext(t, prev, before, s, e);
        // on the other spans the last step changes nothing
        assert(after == draw_range(prev, c, s, e));
        assert forall|i: int, k: int|
            0 <= i < init.len() && in_span(wi, #[trigger] init[i], k) implies #[trigger] after[k]
            == prev[k] by {
            lemma_span_bytes(w, h, init[i]);
            if s <= k < e {
                assert(!in_span(wi, init[i], k));
            }
        }
        lemma_lines_err_ext(t, after, prev, wi, init);
        lemma_err_changed_range(t, prev, after, s, e);
    }
}

/// With the score of `before` as the prior score, and spans that lie on
/// the canvas and share no pixel, `partial_err` is the squared distance of
/// the canvas that the compositor leaves.
pub proof fn lemma_partial_err_exact(
    t: Seq<u8>,
    before: Seq<u8>,
    w: usize,
    h: usize,
    c: Color,
    lines: Seq<Scanline>,
)
    requires
        w * h <= MAX_AREA,
        t.len() == 4 * (w * h),
        before.len() == 4 * (w * h),
        all_within(lines, w, h),
        pairwise_disjoint(lines),
    ensures
        partial_err(
            t,
            before,
            drawn(before, w as int, c, lines),
            w as int,
            sq_err(t, before),
            lines,
        ) == sq_err(t, drawn(before, w as int, c, lines)),
{
    lemma_partial_is_full(t, before, w, h, c, lines);
    lemma_drawn_outside(before, w as int, c, lines);
    lemma_range_err_bound(t, drawn(before, w as int, c, lines), 0, t.len() as int);
}

/// Copying spans from `src` gives the bytes of `src` on the spans, keeps
/// the other bytes, and keeps the number of bytes.
pub proof fn lemma_copied_bytes(dst: Seq<u8>, src: Seq<u8>, w: int, lines: Seq<Scanline>)
    ensures
        copied(dst, src, w, lines).len() == dst.len(),
        forall|k: int|
            0 <= k < dst.len() ==> #[trigger] copied(dst, src, w, lines)[k] == (if exists|i: int|
                0 <= i < lines.len() && in_span(w, #[trigger] lines[i], k) {
                src[k]
            } else {
                dst[k]
            }),
    decreases lines.len(),
{
    if lines.len() > 0 {
        let init = lines.drop_last();
        let last = lines.last();
        lemma_copied_bytes(dst, src, w, init);
        let prev = copied(dst, src, w, init);
        assert forall|k: int| 0 <= k < dst.len() implies #[trigger] copied(dst, src, w, lines)[k]
            == (if exists|i: int| 0 <= i < lines.len() && in_span(w, #[trigger] lines[i], k) {
            src[k]
        } else {
            dst[k]
        }) by {
            if in_span(w, last, k) {
                assert(in_span(w, lines[lines.len() - 1], k));
            } else if exists|i: int| 0 <= i < init.len() && in_span(w, #[trigger] init[i], k) {
                let i = choose|i: int| 0 <= i < init.len() && in_span(w, #[trigger] init[i], k);
                assert(init[i] == lines[i]);
                assert(in_span(w, lines[i], k));
            } else {
                if exists|i: int| 0 <= i < lines.len() && in_span(w, #[trigger] lines[i], k) {
                    let i = choose|i: int| 0 <= i < lines.len() && in_span(w, #[trigger] lines[i], k);
                    if i < init.len() {
                        assert(init[i] == lines[i]);
                    }
                }
            }
        }
    }
}

/// On spans that lie on the canvas and share no pixel, each byte of a span
/// is composited once: it is the byte that the colour gives over the pixel
/// as it was before.
pub proof fn lemma_drawn_inside(
    buf: Seq<u8>,
    w: usize,
    h: usize,
    c: Color,
    lines: Seq<Scanline>,
    i: int,
    k: int,
)
    requires
        buf.len() == 4 * (w * h),
        all_within(lines, w, h),
        pairwise_disjoint(lines),
        0 <= i < lines.len(),
        in_span(w as int, lines[i], k),
    ensures
        drawn(buf, w as int, c, lines)[k] == blended_byte(buf, c, k),
    decreases lines.len(),
{
    let wi = w as int;
    let init = lines.drop_last();
    let last = lines.last();
    let prev = drawn(buf, wi, c, init);
    assert(last == lines[lines.len() - 1]);
    lemma_span_bytes(w, h, last);
    lemma_span_bytes(w, h, lines[i]);
    lemma_drawn_outside(buf, wi, c, init);
    assert forall|j: int| 0 <= j < init.len() implies (#[trigger] init[j]).within(w, h) by {
        assert(init[j] == lines[j]);
    }
    assert forall|a: int, b: int| 0 <= a < b < init.len() implies !(#[trigger] init[a]).meets(
        #[trigger] init[b],
    ) by {
        assert(init[a] == lines[a] && init[b] == lines[b]);
    }
    if i == lines.len() - 1 {
        // the pixel of this byte was untouched until the last span
        let p = k - k % 4;
        assert forall|q: int| p <= q < p + 4 implies prev[q] == buf[q] by {
            assert forall|j: int| 0 <= j < init.len() implies !in_span(wi, #[trigger] init[j], q) by {
                assert(init[j] == lines[j]);
                lemma_disjoint_bytes(w, h, lines[j], lines[lines.len() - 1]);
            }
        }
        assert(prev[k] == buf[k]);
        assert(prev[p + 3] == buf[p + 3]);
    } else {
        assert(init[i] == lines[i]);
        lemma_drawn_inside(buf, w, h, c, init, i, k);
        lemma_disjoint_bytes(w, h, lines[i], lines[lines.len() - 1]);
    }
}

/// The squared distance on the spans is the same whether the colour is
/// composited over the canvas itself or over a scratch canvas to which the
/// spans were copied first.
pub proof fn lemma_scratch_err(
    t: Seq<u8>,
    current: Seq<u8>,
    scratch: Seq<u8>,
    w: usize,
    h: usize,
    c: Color,
    lines: Seq<Scanline>,
)
    requires
        current.len() == 4 * (w * h),
        scratch.len() == 4 * (w * h),
        all_within(lines, w, h),
        pairwise_disjoint(lines),
    ensures
        lines_err(
            t,
            drawn(copied(scratch, current, w as int, lines), w as int, c, lines),
            w as int,
            lines,
        ) == lines_err(t, drawn(current, w as int, c, lines), w as int, lines),
{
    let wi = w as int;
    let mixed = copied(scratch, current, wi, lines);
    lemma_copied_bytes(scratch, current, wi, lines);
    let a = drawn(mixed, wi, c, lines);
    let b = drawn(current, wi, c, lines);
    assert forall|i: int, k: int|
        0 <= i < lines.len() && in_span(wi, #[trigger] lines[i], k) implies #[trigger] a[k]
        == b[k] by {
        lemma_span_bytes(w, h, lines[i]);
        lemma_drawn_inside(mixed, w, h, c, lines, i, k);
        lemma_drawn_inside(current, w, h, c, lines, i, k);
        let p = k - k % 4;
        assert(in_span(wi, lines[i], p + 3));
        assert(mixed[k] == current[k]);
        assert(mixed[p + 3] == current[p + 3]);
    }
    lemma_lines_err_ext(t, a, b, wi, lines);
}

/// Every pixel of the canvas has the alpha 255.
pub open spec fn opaque(buf: Seq<u8>) -> bool {
    forall|k: int| 0 <= k < buf.len() && k % 4 == 3 ==> #[trigger] buf[k] == 255
}

/// A canvas filled with an opaque colour is opaque.
pub proof fn lemma_erased_opaque(len: nat, c: Color)
    requires
        c.spec_a() == 255,
    ensures
        opaque(erased(len, c)),
{
}

/// An opaque canvas stays opaque, whatever is composited over it.
pub proof fn lemma_drawn_opaque(buf: Seq<u8>, w: int, c: Color, lines: Seq<Scanline>)
    requires
        opaque(buf),
    ensures
        opaque(drawn(buf, w, c, lines)),
    decreases lines.len(),
{
    if lines.len() > 0 {
        let prev = drawn(buf, w, c, lines.drop_last());
        lemma_drawn_opaque(buf, w, c, lines.drop_last());
        lemma_drawn_outside(buf, w, c, lines.drop_last());
        let next = drawn(buf, w, c, lines);
        assert forall|k: int| 0 <= k < next.len() && k % 4 == 3 implies #[trigger] next[k]
            == 255 by {
            assert(prev[k] == 255);
            lemma_blend_bounds(0, c.spec_a() as int, 0, 255);
        }
    }
}

} // verus!
