//! Row-by-row collection of cropped spans, and the rasterizer of the
//! axis-aligned rectangle.

use vstd::prelude::*;
use crate::scanline::{Scanline, crop, all_within, distinct_rows};

verus! {

/// The cropped spans of the rows `lo..hi` in increasing order, where
/// `row(y)` is the interval that row `y` holds before cropping. Rows whose
/// interval has no pixel on the canvas are left out.
pub open spec fn rows(
    w: usize,
    h: usize,
    row: spec_fn(int) -> (int, int),
    lo: int,
    hi: int,
) -> Seq<Scanline>
    decreases hi - lo,
{
    if lo >= hi {
        Seq::empty()
    } else {
        let rest = rows(w, h, row, lo, hi - 1);
        match crop(w, h, hi - 1, row(hi - 1).0, row(hi - 1).1) {
            Some(s) => rest.push(s),
            None => rest,
        }
    }
}

/// The spans of `rows` lie on the canvas, on rows of `lo..hi` that increase
/// strictly from one span to the next.
pub open spec fn rows_shape(spans: Seq<Scanline>, w: usize, h: usize, lo: int, hi: int) -> bool {
    &&& all_within(spans, w, h)
    &&& distinct_rows(spans)
    &&& spans.len() <= (if hi > lo { hi - lo } else { 0 })
    &&& forall|i: int| 0 <= i < spans.len() ==> lo <= (#[trigger] spans[i]).y < hi
    &&& forall|i: int, j: int|
        0 <= i < j < spans.len() ==> (#[trigger] spans[i]).y < (#[trigger] spans[j]).y
}

/// Each span of `rows` lies on the canvas, on a row of `lo..hi`, and the
/// rows of the spans increase strictly.
pub proof fn lemma_rows_shape(
    w: usize,
    h: usize,
    row: spec_fn(int) -> (int, int),
    lo: int,
    hi: int,
)
    ensures
        rows_shape(rows(w, h, row, lo, hi), w, h, lo, hi),
    decreases hi - lo,
{
    if lo < hi {
        lemma_rows_shape(w, h, row, lo, hi - 1);
        let rest = rows(w, h, row, lo, hi - 1);
        let all = rows(w, h, row, lo, hi);
        match crop(w, h, hi - 1, row(hi - 1).0, row(hi - 1).1) {
            Some(s) => {
                assert(all == rest.push(s));
                assert(s.y == hi - 1 && s.within(w, h));
                assert forall|i: int| 0 <= i < all.len() implies (#[trigger] all[i]).within(w, h)
                    && lo <= all[i].y < hi by {
                    if i < rest.len() {
                        assert(all[i] == rest[i]);
                    }
                }
                assert forall|i: int, j: int| 0 <= i < j < all.len() implies (#[trigger] all[i]).y
                    < (#[trigger] all[j]).y by {
                    assert(all[i] == rest[i]);
                    if j < rest.len() {
                        assert(all[j] == rest[j]);
                    }
                }
            },
            None => {
                assert(all == rest);
            },
        }
    }
}

/// The first row of `lo..` that a canvas of height `h` can hold.
pub open spec fn clip_lo(h: int, lo: int) -> int {
    if lo < 0 {
        0
    } else if lo > h {
        h
    } else {
        lo
    }
}

/// The end of the rows of `lo..hi` that a canvas of height `h` can hold.
pub open spec fn clip_hi(h: int, lo: int, hi: int) -> int {
    let end = if hi > h { h } else { hi };
    if end < clip_lo(h, lo) {
        clip_lo(h, lo)
    } else {
        end
    }
}

/// Rows above and below the canvas add nothing.
pub proof fn lemma_rows_clip(w: usize, h: usize, row: spec_fn(int) -> (int, int), lo: int, hi: int)
    ensures
        rows(w, h, row, lo, hi) == rows(w, h, row, clip_lo(h as int, lo), clip_hi(h as int, lo, hi)),
    decreases hi - lo,
{
    let a = clip_lo(h as int, lo);
    let b = clip_hi(h as int, lo, hi);
    if lo < hi {
        lemma_rows_clip(w, h, row, lo, hi - 1);
        let b1 = clip_hi(h as int, lo, hi - 1);
        if hi > h || hi - 1 < 0 {
            // row hi - 1 lies off the canvas
            assert(crop(w, h, hi - 1, row(hi - 1).0, row(hi - 1).1).is_none());
            assert(b == b1);
        } else {
            assert(a == (if lo < 0 { 0 } else { lo }));
            assert(b == hi);
            if a == hi - 1 {
                assert(b1 == a);
            } else {
                assert(b1 == hi - 1);
            }
        }
    }
}

/// `rows` needs its row function on the rows `lo..hi` only.
pub proof fn lemma_rows_ext(
    w: usize,
    h: usize,
    row: spec_fn(int) -> (int, int),
    other: spec_fn(int) -> (int, int),
    lo: int,
    hi: int,
)
    requires
        forall|y: int| lo <= y < hi ==> #[trigger] row(y) == other(y),
    ensures
        rows(w, h, row, lo, hi) == rows(w, h, other, lo, hi),
    decreases hi - lo,
{
    if lo < hi {
        lemma_rows_ext(w, h, row, other, lo, hi - 1);
        assert(row(hi - 1) == other(hi - 1));
    }
}

/// The rows `lo..hi` are the rows `lo..mid` followed by the rows `mid..hi`.
pub proof fn lemma_rows_split(
    w: usize,
    h: usize,
    row: spec_fn(int) -> (int, int),
    lo: int,
    mid: int,
    hi: int,
)
    requires
        lo <= mid <= hi,
    ensures
        rows(w, h, row, lo, hi) == rows(w, h, row, lo, mid) + rows(w, h, row, mid, hi),
    decreases hi - mid,
{
    if mid < hi {
        lemma_rows_split(w, h, row, lo, mid, hi - 1);
        let a = rows(w, h, row, lo, mid);
        let b = rows(w, h, row, mid, hi - 1);
        match crop(w, h, hi - 1, row(hi - 1).0, row(hi - 1).1) {
            Some(s) => {
                assert((a + b).push(s) =~= a + b.push(s));
            },
            None => {},
        }
    } else {
        assert(rows(w, h, row, lo, mid) + Seq::<Scanline>::empty() =~= rows(w, h, row, lo, mid));
    }
}

/// The interval that every row of an axis-aligned rectangle holds.
pub open spec fn rect_row(x1: int, x2: int) -> spec_fn(int) -> (int, int) {
    |y: int| (x1, x2)
}

/// The spans of the rectangle with corners `(x1, y1)` and `(x2, y2)`, both
/// inclusive, on a canvas of `w` by `h`: one for each row of `y1..=y2`,
/// cropped.
pub open spec fn rect_spans(w: usize, h: usize, x1: int, y1: int, x2: int, y2: int) -> Seq<Scanline> {
    rows(w, h, rect_row(x1, x2), y1, y2 + 1)
}

/// `buf` after a rasterizer has written `spans` to its front.
pub open spec fn filled(before: Seq<Scanline>, spans: Seq<Scanline>, after: Seq<Scanline>) -> bool {
    &&& after.len() == before.len()
    &&& spans.len() <= before.len()
    &&& after.subrange(0, spans.len() as int) == spans
    &&& after.skip(spans.len() as int) == before.skip(spans.len() as int)
}

/// `buf` after a rasterizer has written `spans` behind its first `offset`
/// entries.
pub open spec fn filled_at(
    before: Seq<Scanline>,
    offset: int,
    spans: Seq<Scanline>,
    after: Seq<Scanline>,
) -> bool {
    &&& after.len() == before.len()
    &&& 0 <= offset
    &&& offset + spans.len() <= before.len()
    &&& after.subrange(0, offset) == before.subrange(0, offset)
    &&& after.subrange(offset, offset + spans.len()) == spans
    &&& after.skip(offset + spans.len()) == before.skip(offset + spans.len())
}

/// Writing one more span behind `count` spans extends the front of the
/// buffer and leaves what lies behind it as it was.
pub proof fn lemma_emit(before: Seq<Scanline>, prev: Seq<Scanline>, count: int, line: Scanline)
    requires
        0 <= count < prev.len(),
        prev.len() == before.len(),
        prev.skip(count) == before.skip(count),
    ensures
        prev.update(count, line).subrange(0, count + 1) == prev.subrange(0, count).push(line),
        prev.update(count, line).skip(count + 1) == before.skip(count + 1),
{
    let next = prev.update(count, line);
    assert(next.subrange(0, count + 1) =~= prev.subrange(0, count).push(line));
    assert forall|k: int| 0 <= k < next.skip(count + 1).len() implies #[trigger] next.skip(
        count + 1,
    )[k] == before.skip(count + 1)[k] by {
        assert(prev.skip(count)[k + 1] == before.skip(count)[k + 1]);
    }
    assert(next.skip(count + 1) =~= before.skip(count + 1));
}

/// Writes the spans of the rectangle `(x1, y1)..=(x2, y2)`, cropped to a
/// canvas of `w` by `h`, to the front of `buf` and returns their number.
pub fn rasterize_rectangle(
    w: usize,
    h: usize,
    x1: i32,
    y1: i32,
    x2: i32,
    y2: i32,
    buf: &mut Vec<Scanline>,
) -> (n: usize)
    requires
        old(buf).len() > h,
    ensures
        n == rect_spans(w, h, x1 as int, y1 as int, x2 as int, y2 as int).len(),
        n <= h,
        filled(
            old(buf)@,
            rect_spans(w, h, x1 as int, y1 as int, x2 as int, y2 as int),
            final(buf)@,
        ),
{
    let ghost row = rect_row(x1 as int, x2 as int);
    let ghost before = buf@;
    let (lo, hi) = clip_rows(h, y1 as i64, y2 as i64 + 1);
    proof {
        lemma_rows_clip(w, h, row, y1 as int, y2 + 1);
        assert(buf@.subrange(0, 0) =~= Seq::<Scanline>::empty());
    }
    let mut count: usize = 0;
    let mut y: i64 = lo;
    while y < hi
        invariant
            0 <= lo <= y <= hi <= h,
            count <= y - lo,
            buf.len() == before.len(),
            before.len() > h,
            row == rect_row(x1 as int, x2 as int),
            buf@.subrange(0, count as int) == rows(w, h, row, lo as int, y as int),
            buf@.skip(count as int) == before.skip(count as int),
        decreases hi - y,
    {
        let ghost prev = buf@;
        let mut line: Scanline = buf[count];
        let set: bool = line.validating_set(w, h, y, x1 as i64, x2 as i64);
        assert(row(y as int) == (x1 as int, x2 as int));
        if set {
            buf[count] = line;
            proof {
                lemma_emit(before, prev, count as int, line);
            }
            count += 1;
        }
        y += 1;
    }
    count
}

/// The rows of `lo..hi` that a canvas of height `h` can hold, as a range
/// that is empty where there are none.
pub fn clip_rows(h: usize, lo: i64, hi: i64) -> (r: (i64, i64))
    ensures
        0 <= r.0 <= r.1 <= h,
        r.0 == clip_lo(h as int, lo as int),
        r.1 == clip_hi(h as int, lo as int, hi as int),
{
    let a: i64 = if lo < 0 { 0 } else if lo as u64 > h as u64 { h as i64 } else { lo };
    let b: i64 = if hi <= 0 { 0 } else if hi as u64 > h as u64 { h as i64 } else { hi };
    if b < a {
        (a, a)
    } else {
        (a, b)
    }
}

} // verus!
