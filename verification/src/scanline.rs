//! Inclusive horizontal pixel spans.

use vstd::prelude::*;

verus! {

/// The pixels `x1..=x2` of row `y`.
#[derive(Debug, Clone, Copy, PartialEq, Eq, Structural)]
pub struct Scanline {
    pub y: usize,
    pub x1: usize,
    pub x2: usize,
}

/// The part of the interval `a..=b` of row `y` that lies on a canvas of
/// `w` by `h` pixels, or `None` where no pixel of it does.
pub open spec fn crop(w: usize, h: usize, y: int, a: int, b: int) -> Option<Scanline> {
    let x1 = if a < 0 { 0 } else { a };
    let x2 = if b > w - 1 { w - 1 } else { b };
    if 0 <= y < h && x1 <= x2 {
        Some(Scanline { y: y as usize, x1: x1 as usize, x2: x2 as usize })
    } else {
        None
    }
}

/// Every span of `lines` is non-empty and lies on a canvas of `w` by `h`.
pub open spec fn all_within(lines: Seq<Scanline>, w: usize, h: usize) -> bool {
    forall|i: int| 0 <= i < lines.len() ==> (#[trigger] lines[i]).within(w, h)
}

/// No pixel belongs to two spans of `lines`.
pub open spec fn pairwise_disjoint(lines: Seq<Scanline>) -> bool {
    forall|i: int, j: int|
        0 <= i < j < lines.len() ==> !(#[trigger] lines[i]).meets(#[trigger] lines[j])
}

/// No two spans of `lines` share a row.
pub open spec fn distinct_rows(lines: Seq<Scanline>) -> bool {
    forall|i: int, j: int|
        0 <= i < j < lines.len() ==> (#[trigger] lines[i]).y != (#[trigger] lines[j]).y
}

/// Spans on distinct rows share no pixel.
pub proof fn lemma_distinct_rows_disjoint(lines: Seq<Scanline>)
    requires
        distinct_rows(lines),
    ensures
        pairwise_disjoint(lines),
{
}

impl Scanline {
    /// The span is non-empty and lies on a canvas of `w` by `h` pixels.
    pub open spec fn within(self, w: usize, h: usize) -> bool {
        self.y < h && self.x1 <= self.x2 < w
    }

    /// The two spans have a pixel in common.
    pub open spec fn meets(self, other: Scanline) -> bool {
        self.y == other.y && self.x1 <= other.x2 && other.x1 <= self.x2
    }

    /// The single pixel at the origin.
    pub fn empty() -> (s: Scanline)
        ensures
            s == (Scanline { y: 0, x1: 0, x2: 0 }),
    {
        Scanline { y: 0, x1: 0, x2: 0 }
    }

    /// A buffer for the spans of any shape on a canvas of height `h`:
    /// `h + 1` spans, each the one that `empty` gives.
    pub fn buffer(h: usize) -> (v: Vec<Scanline>)
        requires
            h < usize::MAX,
        ensures
            v@ == Seq::new((h + 1) as nat, |i: int| Scanline { y: 0, x1: 0, x2: 0 }),
    {
        let mut v: Vec<Scanline> = Vec::new();
        let mut i: usize = 0;
        while i < h + 1
            invariant
                h < usize::MAX,
                i <= h + 1,
                v@ == Seq::new(i as nat, |k: int| Scanline { y: 0, x1: 0, x2: 0 }),
            decreases h + 1 - i,
        {
            v.push(Scanline::empty());
            i += 1;
            assert(v@ =~= Seq::new(i as nat, |k: int| Scanline { y: 0, x1: 0, x2: 0 }));
        }
        v
    }

    /// Sets the span to the part of `x1..=x2` on row `y` that lies on a
    /// canvas of `w` by `h` pixels and returns `true`; where no pixel of it
    /// lies there, returns `false` and leaves the span as it was.
    pub fn validating_set(&mut self, w: usize, h: usize, y: i64, x1: i64, x2: i64) -> (set: bool)
        ensures
            set == crop(w, h, y as int, x1 as int, x2 as int).is_some(),
            set ==> *final(self) == crop(w, h, y as int, x1 as int, x2 as int).unwrap(),
            !set ==> *final(self) == *old(self),
    {
        if y < 0 || x2 < 0 || w == 0 {
            return false;
        }
        let row: u64 = y as u64;
        if row >= h as u64 {
            return false;
        }
        let a: u64 = if x1 < 0 { 0 } else { x1 as u64 };
        let last: u64 = (w - 1) as u64;
        let b: u64 = if x2 as u64 > last { last } else { x2 as u64 };
        if a > b {
            return false;
        }
        self.y = row as usize;
        self.x1 = a as usize;
        self.x2 = b as usize;
        true
    }
}

} // verus!
