//! The shapes: a tagged variant over the four families, and what every
//! family offers.

use vstd::prelude::*;
use vstd::string::StringExecFns;
use crate::ellipse::{ellipse_spans, rasterize_ellipse, lemma_ellipse_upto_shape};
use crate::numeric::{clamp, spec_clamp, scale_dimen, spec_scale_dimen, lemma_scale_by_one};
use crate::raster::{
    rect_spans, rect_row, filled, clip_lo, clip_hi, rasterize_rectangle, lemma_rows_shape,
    lemma_rows_clip,
};
use crate::rotated::{
    rotated_spans, rasterize_rotated_rectangle, outline, outline_row, top_row, bottom_row,
};
use crate::sampler::Sampler;
use crate::scanline::{Scanline, all_within, distinct_rows};
use crate::text::{decimal, push_decimal};
use crate::triangle::{Corners, rasterize_triangle, is_valid_triangle, wide_angle};

verus! {

/// The greatest width and the greatest height of a canvas on which shapes
/// are drawn at random.
pub const MAX_DIM: usize = 0x1000_0000;

/// The distance by which a corner of a triangle may lie off the canvas.
pub const MARGIN: i64 = 16;

/// `v + d`, limited to `lo..=hi`.
pub fn shifted(v: i32, d: i32, lo: i64, hi: i64) -> (r: i32)
    requires
        i32::MIN <= lo <= i32::MAX,
        i32::MIN <= hi <= i32::MAX,
    ensures
        r == spec_clamp(v + d, lo as int, hi as int),
{
    clamp(v as i64 + d as i64, lo, hi) as i32
}

/// The families of shapes.
#[derive(Debug, Clone, Copy, PartialEq, Eq, Structural)]
pub enum ShapeType {
    Triangle,
    Ellipse,
    Rectangle,
    RotatedRectangle,
}

impl ShapeType {
    /// The family with the name `name`: `triangle`, `ellipse`, `rectangle`
    /// or `rotated-rectangle`.
    pub open spec fn spec_from_name(name: Seq<char>) -> Option<ShapeType> {
        if name == "triangle"@ {
            Some(ShapeType::Triangle)
        } else if name == "ellipse"@ {
            Some(ShapeType::Ellipse)
        } else if name == "rectangle"@ {
            Some(ShapeType::Rectangle)
        } else if name == "rotated-rectangle"@ {
            Some(ShapeType::RotatedRectangle)
        } else {
            None
        }
    }

    /// The family with the name `name`, if it is the name of one.
    pub fn from_name(name: &str) -> (t: Option<ShapeType>)
        ensures
            t == ShapeType::spec_from_name(name@),
    {
        let given: String = String::from_str(name);
        if given == String::from_str("triangle") {
            Some(ShapeType::Triangle)
        } else if given == String::from_str("ellipse") {
            Some(ShapeType::Ellipse)
        } else if given == String::from_str("rectangle") {
            Some(ShapeType::Rectangle)
        } else if given == String::from_str("rotated-rectangle") {
            Some(ShapeType::RotatedRectangle)
        } else {
            None
        }
    }

    /// The family with the number `n`: the number with which `serialize`
    /// writes a shape of the family.
    pub fn from_number(n: i32) -> (t: Option<ShapeType>)
        ensures
            t == (if n == 0 {
                Some(ShapeType::Triangle)
            } else if n == 1 {
                Some(ShapeType::Ellipse)
            } else if n == 2 {
                Some(ShapeType::Rectangle)
            } else if n == 3 {
                Some(ShapeType::RotatedRectangle)
            } else {
                None
            }),
    {
        if n == 0 {
            Some(ShapeType::Triangle)
        } else if n == 1 {
            Some(ShapeType::Ellipse)
        } else if n == 2 {
            Some(ShapeType::Rectangle)
        } else if n == 3 {
            Some(ShapeType::RotatedRectangle)
        } else {
            None
        }
    }
}

/// A shape of one of the four families.
#[derive(Debug, Clone, Copy, PartialEq, Eq, Structural)]
pub enum Shape {
    /// The triangle with the corners `(x1, y1)`, `(x2, y2)` and `(x3, y3)`.
    Triangle { x1: i32, y1: i32, x2: i32, y2: i32, x3: i32, y3: i32 },
    /// The ellipse about `(x, y)` with the radii `rx` and `ry`.
    Ellipse { x: i32, y: i32, rx: i32, ry: i32 },
    /// The rectangle with the corners `(x1, y1)` and `(x2, y2)`, both
    /// inclusive.
    Rectangle { x1: i32, y1: i32, x2: i32, y2: i32 },
    /// The rectangle of `sx` by `sy` pixels about `(x, y)`, turned by
    /// `angle` degrees.
    RotatedRectangle { x: i32, y: i32, sx: i32, sy: i32, angle: i32 },
}

impl Shape {
    /// The family of the shape.
    pub open spec fn kind(self) -> ShapeType {
        match self {
            Shape::Triangle { .. } => ShapeType::Triangle,
            Shape::Ellipse { .. } => ShapeType::Ellipse,
            Shape::Rectangle { .. } => ShapeType::Rectangle,
            Shape::RotatedRectangle { .. } => ShapeType::RotatedRectangle,
        }
    }

    /// The spans of the shape on a canvas of `w` by `h` pixels, in the
    /// order in which `rasterize` writes them.
    pub open spec fn spans(self, w: usize, h: usize) -> Seq<Scanline> {
        match self {
            Shape::Triangle { x1, y1, x2, y2, x3, y3 } => (Corners { x1, y1, x2, y2, x3, y3 }).spans(
                w,
                h,
            ),
            Shape::Ellipse { x, y, rx, ry } => ellipse_spans(
                w,
                h,
                x as int,
                y as int,
                rx as int,
                ry as int,
            ),
            Shape::Rectangle { x1, y1, x2, y2 } => rect_spans(
                w,
                h,
                x1 as int,
                y1 as int,
                x2 as int,
                y2 as int,
            ),
            Shape::RotatedRectangle { x, y, sx, sy, angle } => rotated_spans(
                w,
                h,
                x as int,
                y as int,
                sx as int,
                sy as int,
                angle as int,
            ),
        }
    }

    /// Every span of a shape is non-empty and lies on the canvas, no two
    /// spans lie on one row, and there are no more spans than rows.
    pub proof fn lemma_spans_on_canvas(self, w: usize, h: usize)
        ensures
            all_within(self.spans(w, h), w, h),
            distinct_rows(self.spans(w, h)),
            self.spans(w, h).len() <= h,
    {
        match self {
            Shape::Triangle { x1, y1, x2, y2, x3, y3 } => {
                let c = (Corners { x1, y1, x2, y2, x3, y3 }).spec_by_row();
                lemma_rows_clip(w, h, c.row(), c.y1 as int, c.y3 + 1);
                lemma_rows_shape(
                    w,
                    h,
                    c.row(),
                    clip_lo(h as int, c.y1 as int),
                    clip_hi(h as int, c.y1 as int, c.y3 + 1),
                );
            },
            Shape::Ellipse { x, y, rx, ry } => {
                lemma_ellipse_upto_shape(w, h, x as int, y as int, rx as int, ry as int, ry as int);
            },
            Shape::Rectangle { x1, y1, x2, y2 } => {
                let row = rect_row(x1 as int, x2 as int);
                lemma_rows_clip(w, h, row, y1 as int, y2 + 1);
                lemma_rows_shape(
                    w,
                    h,
                    row,
                    clip_lo(h as int, y1 as int),
                    clip_hi(h as int, y1 as int, y2 + 1),
                );
            },
            Shape::RotatedRectangle { x, y, sx, sy, angle } => {
                let c = outline(x as int, y as int, sx as int, sy as int, angle as int);
                lemma_rows_clip(w, h, outline_row(c), top_row(c), bottom_row(c) + 1);
                lemma_rows_shape(
                    w,
                    h,
                    outline_row(c),
                    clip_lo(h as int, top_row(c)),
                    clip_hi(h as int, top_row(c), bottom_row(c) + 1),
                );
            },
        }
    }

    /// The shape lies on a canvas of `w` by `h` pixels as the shapes of
    /// its family do: the corners of a triangle at most `MARGIN` off the
    /// canvas; the centre of an ellipse on it, with radii that are not
    /// negative; the corners of a rectangle on it, the first above and to
    /// the left of the second; the centre of a rotated rectangle on it,
    /// with sides of one pixel at least.
    pub open spec fn fits(self, w: usize, h: usize) -> bool {
        match self {
            Shape::Triangle { x1, y1, x2, y2, x3, y3 } => {
                &&& -MARGIN <= x1 <= w - 1 + MARGIN
                &&& -MARGIN <= y1 <= h - 1 + MARGIN
                &&& -MARGIN <= x2 <= w - 1 + MARGIN
                &&& -MARGIN <= y2 <= h - 1 + MARGIN
                &&& -MARGIN <= x3 <= w - 1 + MARGIN
                &&& -MARGIN <= y3 <= h - 1 + MARGIN
            },
            Shape::Ellipse { x, y, rx, ry } => {
                &&& 0 <= x <= w - 1
                &&& 0 <= y <= h - 1
                &&& 0 <= rx
                &&& 0 <= ry
            },
            Shape::Rectangle { x1, y1, x2, y2 } => {
                &&& 0 <= x1 <= x2 <= w - 1
                &&& 0 <= y1 <= y2 <= h - 1
            },
            Shape::RotatedRectangle { x, y, sx, sy, angle } => {
                &&& 0 <= x <= w - 1
                &&& 0 <= y <= h - 1
                &&& 1 <= sx
                &&& 1 <= sy
            },
        }
    }

    /// A rectangle has its first corner above and to the left of its
    /// second; shapes of the other families have no such order.
    pub open spec fn canonical(self) -> bool {
        match self {
            Shape::Rectangle { x1, y1, x2, y2 } => x1 <= x2 && y1 <= y2,
            _ => true,
        }
    }

    /// The shape is one that the search keeps: a triangle is valid; shapes
    /// of the other families always are.
    pub open spec fn settled(self) -> bool {
        match self {
            Shape::Triangle { x1, y1, x2, y2, x3, y3 } => (Corners { x1, y1, x2, y2, x3, y3 }).valid(),
            _ => true,
        }
    }

    /// The shape after one perturbation on a canvas of `w` by `h` pixels,
    /// where `pick` says what is moved and `d1` and `d2` by how much.
    ///
    /// Of a triangle the first, second or third corner moves by
    /// `(d1, d2)`, for `pick` 0, 1 or another number, and is kept at most
    /// `MARGIN` off the canvas. Of an ellipse the centre moves by
    /// `(d1, d2)` and is kept on the canvas, or the one radius or the other
    /// changes by `d1` and is kept between 0 and the last column or row. Of
    /// a rectangle the first or the second corner moves by `(d1, d2)` and
    /// is kept on the canvas; then the corners are put in order. Of a
    /// rotated rectangle the centre moves by `(d1, d2)` and is kept on the
    /// canvas, or the sides change by `d1` and `d2` and are kept between 1
    /// and the last column or row, or the angle changes by `d1`.
    pub open spec fn perturbed(self, w: usize, h: usize, pick: int, d1: int, d2: int) -> Shape {
        match self {
            Shape::Triangle { x1, y1, x2, y2, x3, y3 } => {
                if pick == 0 {
                    Shape::Triangle {
                        x1: spec_clamp(x1 + d1, -MARGIN as int, w - 1 + MARGIN) as i32,
                        y1: spec_clamp(y1 + d2, -MARGIN as int, h - 1 + MARGIN) as i32,
                        x2,
                        y2,
                        x3,
                        y3,
                    }
                } else if pick == 1 {
                    Shape::Triangle {
                        x1,
                        y1,
                        x2: spec_clamp(x2 + d1, -MARGIN as int, w - 1 + MARGIN) as i32,
                        y2: spec_clamp(y2 + d2, -MARGIN as int, h - 1 + MARGIN) as i32,
                        x3,
                        y3,
                    }
                } else {
                    Shape::Triangle {
                        x1,
                        y1,
                        x2,
                        y2,
                        x3: spec_clamp(x3 + d1, -MARGIN as int, w - 1 + MARGIN) as i32,
                        y3: spec_clamp(y3 + d2, -MARGIN as int, h - 1 + MARGIN) as i32,
                    }
                }
            },
            Shape::Ellipse { x, y, rx, ry } => {
                if pick == 0 {
                    Shape::Ellipse {
                        x: spec_clamp(x + d1, 0, w - 1) as i32,
                        y: spec_clamp(y + d2, 0, h - 1) as i32,
                        rx,
                        ry,
                    }
                } else if pick == 1 {
                    Shape::Ellipse { x, y, rx: spec_clamp(rx + d1, 0, w - 1) as i32, ry }
                } else {
                    Shape::Ellipse { x, y, rx, ry: spec_clamp(ry + d1, 0, h - 1) as i32 }
                }
            },
            Shape::Rectangle { x1, y1, x2, y2 } => {
                let px = if pick == 0 { spec_clamp(x1 + d1, 0, w - 1) as i32 } else { x1 };
                let py = if pick == 0 { spec_clamp(y1 + d2, 0, h - 1) as i32 } else { y1 };
                let qx = if pick == 0 { x2 } else { spec_clamp(x2 + d1, 0, w - 1) as i32 };
                let qy = if pick == 0 { y2 } else { spec_clamp(y2 + d2, 0, h - 1) as i32 };
                Shape::Rectangle {
                    x1: if px > qx { qx } else { px },
                    y1: if py > qy { qy } else { py },
                    x2: if px > qx { px } else { qx },
                    y2: if py > qy { py } else { qy },
                }
            },
            Shape::RotatedRectangle { x, y, sx, sy, angle } => {
                if pick == 0 {
                    Shape::RotatedRectangle {
                        x: spec_clamp(x + d1, 0, w - 1) as i32,
                        y: spec_clamp(y + d2, 0, h - 1) as i32,
                        sx,
                        sy,
                        angle,
                    }
                } else if pick == 1 {
                    Shape::RotatedRectangle {
                        x,
                        y,
                        sx: spec_clamp(sx + d1, 1, w - 1) as i32,
                        sy: spec_clamp(sy + d2, 1, h - 1) as i32,
                        angle,
                    }
                } else {
                    Shape::RotatedRectangle {
                        x,
                        y,
                        sx,
                        sy,
                        angle: spec_clamp(angle + d1, i32::MIN as int, i32::MAX as int) as i32,
                    }
                }
            },
        }
    }

    /// The shape with the corners of a rectangle put in order, the first
    /// above and to the left of the second.
    pub open spec fn ordered(self) -> Shape {
        match self {
            Shape::Rectangle { x1, y1, x2, y2 } => Shape::Rectangle {
                x1: if x1 > x2 { x2 } else { x1 },
                y1: if y1 > y2 { y2 } else { y1 },
                x2: if x1 > x2 { x1 } else { x2 },
                y2: if y1 > y2 { y1 } else { y2 },
            },
            _ => self,
        }
    }

    /// The shape after the perturbations `moves`, each a triple of what
    /// is moved and by how much, one after the other.
    pub open spec fn perturbed_by(self, w: usize, h: usize, moves: Seq<(int, int, int)>) -> Shape
        decreases moves.len(),
    {
        if moves.len() == 0 {
            self
        } else {
            self.perturbed_by(w, h, moves.drop_last()).perturbed(
                w,
                h,
                moves.last().0,
                moves.last().1,
                moves.last().2,
            )
        }
    }

    /// The shape that a mutation leaves where the sampler runs out before
    /// it has reached a shape that the search keeps: the shape itself where
    /// the search keeps it, else the triangle with the corners `(0, 0)`,
    /// `(16, 0)` and `(0, 16)`, which lies on every canvas as triangles do.
    pub open spec fn fallback(self) -> Shape {
        if self.settled() {
            self
        } else {
            Shape::Triangle { x1: 0, y1: 0, x2: 16, y2: 0, x3: 0, y3: 16 }
        }
    }

    /// The shape that a mutation leaves after the perturbations `moves`:
    /// the shape to which they lead, where they lead to one that the search
    /// keeps, else the fallback; the corners of a rectangle put in order.
    pub open spec fn reached(self, w: usize, h: usize, moves: Seq<(int, int, int)>) -> Shape {
        if moves.len() > 0 && self.perturbed_by(w, h, moves).settled() {
            self.perturbed_by(w, h, moves).ordered()
        } else {
            self.fallback().ordered()
        }
    }

    /// `after` is what a mutation at the cost of `spent` perturbations
    /// may leave of the shape: there are that many perturbations, each of
    /// one of three things, none but the last of which leads to a shape
    /// that the search keeps, and `after` is the shape reached after them.
    /// So a shape of another family than the triangle is perturbed once at
    /// most. Unless the sampler ran out, the perturbations are one at least
    /// and the last leads to a shape that the search keeps.
    #[verifier::opaque]
    pub open spec fn mutated_to(
        self,
        after: Shape,
        w: usize,
        h: usize,
        spent: int,
        ran_out: bool,
    ) -> bool {
        exists|moves: Seq<(int, int, int)>|
            {
                &&& moves.len() == spent
                &&& #[trigger] self.reached(w, h, moves) == after
                &&& forall|i: int| 0 <= i < moves.len() ==> 0 <= (#[trigger] moves[i]).0 < 3
                &&& forall|k: int|
                    0 < k < moves.len() ==> !(#[trigger] self.perturbed_by(
                        w,
                        h,
                        moves.take(k),
                    )).settled()
                &&& !ran_out ==> moves.len() > 0 && self.perturbed_by(w, h, moves).settled()
            }
    }

    /// Perturbs the shape once on a canvas of `w` by `h` pixels: `pick`
    /// says what is moved, `d1` and `d2` by how much.
    pub fn perturb(&mut self, w: usize, h: usize, pick: i32, d1: i32, d2: i32)
        requires
            w <= MAX_DIM,
            h <= MAX_DIM,
        ensures
            *final(self) == old(self).perturbed(w, h, pick as int, d1 as int, d2 as int),
    {
        let right: i64 = w as i64 - 1;
        let low: i64 = h as i64 - 1;
        let shape: Shape = *self;
        match shape {
            Shape::Triangle { x1, y1, x2, y2, x3, y3 } => {
                if pick == 0 {
                    *self = Shape::Triangle {
                        x1: shifted(x1, d1, -MARGIN, right + MARGIN),
                        y1: shifted(y1, d2, -MARGIN, low + MARGIN),
                        x2,
                        y2,
                        x3,
                        y3,
                    };
                } else if pick == 1 {
                    *self = Shape::Triangle {
                        x1,
                        y1,
                        x2: shifted(x2, d1, -MARGIN, right + MARGIN),
                        y2: shifted(y2, d2, -MARGIN, low + MARGIN),
                        x3,
                        y3,
                    };
                } else {
                    *self = Shape::Triangle {
                        x1,
                        y1,
                        x2,
                        y2,
                        x3: shifted(x3, d1, -MARGIN, right + MARGIN),
                        y3: shifted(y3, d2, -MARGIN, low + MARGIN),
                    };
                }
            },
            Shape::Ellipse { x, y, rx, ry } => {
                if pick == 0 {
                    *self = Shape::Ellipse {
                        x: shifted(x, d1, 0, right),
                        y: shifted(y, d2, 0, low),
                        rx,
                        ry,
                    };
                } else if pick == 1 {
                    *self = Shape::Ellipse { x, y, rx: shifted(rx, d1, 0, right), ry };
                } else {
                    *self = Shape::Ellipse { x, y, rx, ry: shifted(ry, d1, 0, low) };
                }
            },
            Shape::Rectangle { x1, y1, x2, y2 } => {
                let px: i32 = if pick == 0 { shifted(x1, d1, 0, right) } else { x1 };
                let py: i32 = if pick == 0 { shifted(y1, d2, 0, low) } else { y1 };
                let qx: i32 = if pick == 0 { x2 } else { shifted(x2, d1, 0, right) };
                let qy: i32 = if pick == 0 { y2 } else { shifted(y2, d2, 0, low) };
                *self = Shape::Rectangle {
                    x1: if px > qx { qx } else { px },
                    y1: if py > qy { qy } else { py },
                    x2: if px > qx { px } else { qx },
                    y2: if py > qy { py } else { qy },
                };
            },
            Shape::RotatedRectangle { x, y, sx, sy, angle } => {
                if pick == 0 {
                    *self = Shape::RotatedRectangle {
                        x: shifted(x, d1, 0, right),
                        y: shifted(y, d2, 0, low),
                        sx,
                        sy,
                        angle,
                    };
                } else if pick == 1 {
                    *self = Shape::RotatedRectangle {
                        x,
                        y,
                        sx: shifted(sx, d1, 1, right),
                        sy: shifted(sy, d2, 1, low),
                        angle,
                    };
                } else {
                    *self = Shape::RotatedRectangle {
                        x,
                        y,
                        sx,
                        sy,
                        angle: shifted(angle, d1, -0x8000_0000, 0x7fff_ffff),
                    };
                }
            },
        }
    }

    /// A single perturbation of a shape of another family than the
    /// triangle is a mutation at the cost of one.
    pub proof fn lemma_one_move(
        self,
        w: usize,
        h: usize,
        pick: int,
        d1: int,
        d2: int,
        ran_out: bool,
    )
        requires
            0 <= pick < 3,
            self.kind() != ShapeType::Triangle,
        ensures
            self.mutated_to(self.perturbed(w, h, pick, d1, d2), w, h, 1, ran_out),
    {
        reveal(Shape::mutated_to);
        let moves = seq![(pick, d1, d2)];
        assert(moves.drop_last() =~= Seq::<(int, int, int)>::empty());
        assert(self.perturbed_by(w, h, moves.drop_last()) == self);
        assert(self.perturbed_by(w, h, moves) == self.perturbed(w, h, pick, d1, d2));
        self.lemma_perturbed_keeps(w, h, pick, d1, d2);
        assert(self.reached(w, h, moves) == self.perturbed(w, h, pick, d1, d2));
    }

    /// Putting the corners of a shape of another family than the triangle
    /// in order is a mutation at no cost, where the sampler has run out.
    pub proof fn lemma_no_move(self, w: usize, h: usize)
        requires
            self.kind() != ShapeType::Triangle,
        ensures
            self.mutated_to(self.ordered(), w, h, 0, true),
    {
        reveal(Shape::mutated_to);
        let moves = Seq::<(int, int, int)>::empty();
        assert(self.reached(w, h, moves) == self.ordered());
    }

    /// The canvas is one on which a perturbation keeps a shape of this
    /// family in place: it has a pixel, and for a rotated rectangle two
    /// columns and two rows, so that a side of one pixel at least fits.
    pub open spec fn roomy(self, w: usize, h: usize) -> bool {
        if self.kind() == ShapeType::RotatedRectangle {
            2 <= w <= MAX_DIM && 2 <= h <= MAX_DIM
        } else {
            1 <= w <= MAX_DIM && 1 <= h <= MAX_DIM
        }
    }

    /// One perturbation leaves the family of a shape as it was and the
    /// corners of a rectangle in order, and a shape that lay on the canvas
    /// as its family does lies there still.
    pub proof fn lemma_perturbed_keeps(self, w: usize, h: usize, pick: int, d1: int, d2: int)
        ensures
            self.perturbed(w, h, pick, d1, d2).kind() == self.kind(),
            self.perturbed(w, h, pick, d1, d2).canonical(),
            self.fits(w, h) && self.roomy(w, h) ==> self.perturbed(w, h, pick, d1, d2).fits(w, h),
    {
    }

    /// The shape is one with which a random shape starts on a canvas of
    /// `w` by `h` pixels. A triangle has its first corner on the canvas and
    /// the others at most 15 pixels from it in each direction. An ellipse
    /// has its centre on the canvas and radii between 1 and 32. A rectangle
    /// has its first corner on the canvas and its second between 1 and 32
    /// pixels further right and down, but no further than the last column
    /// and row. A rotated rectangle has its centre on the canvas, sides
    /// between 1 and 32, and an angle of a full turn.
    pub open spec fn starts(self, w: usize, h: usize) -> bool {
        match self {
            Shape::Triangle { x1, y1, x2, y2, x3, y3 } => {
                &&& 0 <= x1 < w
                &&& 0 <= y1 < h
                &&& -15 <= x2 - x1 <= 15
                &&& -15 <= y2 - y1 <= 15
                &&& -15 <= x3 - x1 <= 15
                &&& -15 <= y3 - y1 <= 15
            },
            Shape::Ellipse { x, y, rx, ry } => {
                &&& 0 <= x < w
                &&& 0 <= y < h
                &&& 1 <= rx <= 32
                &&& 1 <= ry <= 32
            },
            Shape::Rectangle { x1, y1, x2, y2 } => {
                &&& 0 <= x1 <= x2 < w
                &&& 0 <= y1 <= y2 < h
                &&& x2 - x1 <= 32
                &&& y2 - y1 <= 32
                &&& x1 < x2 || x2 == w - 1
                &&& y1 < y2 || y2 == h - 1
            },
            Shape::RotatedRectangle { x, y, sx, sy, angle } => {
                &&& 0 <= x < w
                &&& 0 <= y < h
                &&& 1 <= sx <= 32
                &&& 1 <= sy <= 32
                &&& 0 <= angle < 360
            },
        }
    }

    /// `self` is what `random` may give for the family `t` at the cost of
    /// `spent` perturbations: a shape of that family that is one with which
    /// a random shape starts, or for a triangle what a mutation may leave of
    /// such a one.
    pub open spec fn drawn_for(
        self,
        t: ShapeType,
        w: usize,
        h: usize,
        spent: int,
        ran_out: bool,
    ) -> bool {
        if t == ShapeType::Triangle {
            exists|seed: Shape|
                {
                    &&& seed.kind() == t
                    &&& seed.starts(w, h)
                    &&& #[trigger] seed.mutated_to(self, w, h, spent, ran_out)
                }
        } else {
            self.kind() == t && self.starts(w, h) && spent == 0
        }
    }

    /// A shape of the family `t`, drawn at random for a canvas of `w` by
    /// `h` pixels.
    ///
    /// A triangle has its first corner on the canvas and the others at
    /// most 15 pixels from it in each direction, and is then mutated. An
    /// ellipse and a rotated rectangle have their centre on the canvas; a
    /// rectangle has its first corner there and its second between 1 and 32
    /// pixels further right and down, but on the canvas. The shape is one
    /// that the search keeps.
    pub fn random(t: ShapeType, w: usize, h: usize, rng: &mut Sampler) -> (s: Shape)
        requires
            1 <= w <= MAX_DIM,
            1 <= h <= MAX_DIM,
        ensures
            s.kind() == t,
            s.fits(w, h),
            s.settled(),
            s.drawn_for(
                t,
                w,
                h,
                old(rng).budget() - final(rng).budget(),
                final(rng).budget() == 0,
            ),
            final(rng).budget() <= old(rng).budget(),
    {
        let wi: i32 = w as i32;
        let hi: i32 = h as i32;
        match t {
            ShapeType::Triangle => random_triangle(wi, hi, rng),
            ShapeType::Ellipse => random_ellipse(wi, hi, rng),
            ShapeType::Rectangle => random_rectangle(wi, hi, rng),
            ShapeType::RotatedRectangle => random_rotated_rectangle(wi, hi, rng),
        }
    }

    /// Mutates the shape at random on a canvas of `w` by `h` pixels, at
    /// the cost of one perturbation or more from the sampler's budget.
    ///
    /// A triangle is perturbed until it is valid. Where the sampler runs
    /// out before that, the triangle is left as it was given, if it was
    /// valid, and is else the triangle with the corners `(0, 0)`, `(16, 0)`
    /// and `(0, 16)`. A shape of another family is perturbed once, if the
    /// sampler has not run out. The corners of a rectangle are put in order
    /// in any case.
    pub fn mutate(&mut self, w: usize, h: usize, rng: &mut Sampler)
        requires
            w <= MAX_DIM,
            h <= MAX_DIM,
        ensures
            final(self).kind() == old(self).kind(),
            final(self).canonical(),
            final(self).settled(),
            old(self).fits(w, h) && old(self).roomy(w, h) ==> final(self).fits(w, h),
            final(rng).budget() <= old(rng).budget(),
            old(rng).budget() > 0 ==> final(rng).budget() < old(rng).budget(),
            old(self).mutated_to(
                *final(self),
                w,
                h,
                old(rng).budget() - final(rng).budget(),
                final(rng).budget() == 0,
            ),
    {
        let shape: Shape = *self;
        match shape {
            Shape::Triangle { .. } => mutate_triangle(w, h, rng, self),
            Shape::Ellipse { .. } => mutate_ellipse(w, h, rng, self),
            Shape::Rectangle { .. } => mutate_rectangle(w, h, rng, self),
            Shape::RotatedRectangle { .. } => mutate_rotated_rectangle(w, h, rng, self),
        }
    }

    /// The shape with every coordinate and every length scaled by
    /// `num / den` and rounded to the nearest whole number. The angle of a
    /// rotated rectangle stays as it is.
    pub open spec fn spec_scaled(self, num: usize, den: usize) -> Shape {
        let f = |a: i32| spec_scale_dimen(a as int, num as int, den as int) as i32;
        match self {
            Shape::Triangle { x1, y1, x2, y2, x3, y3 } => Shape::Triangle {
                x1: f(x1),
                y1: f(y1),
                x2: f(x2),
                y2: f(y2),
                x3: f(x3),
                y3: f(y3),
            },
            Shape::Ellipse { x, y, rx, ry } => Shape::Ellipse {
                x: f(x),
                y: f(y),
                rx: f(rx),
                ry: f(ry),
            },
            Shape::Rectangle { x1, y1, x2, y2 } => Shape::Rectangle {
                x1: f(x1),
                y1: f(y1),
                x2: f(x2),
                y2: f(y2),
            },
            Shape::RotatedRectangle { x, y, sx, sy, angle } => Shape::RotatedRectangle {
                x: f(x),
                y: f(y),
                sx: f(sx),
                sy: f(sy),
                angle,
            },
        }
    }

    /// The shape scaled by `num / den`.
    pub fn scaled(&self, num: usize, den: usize) -> (s: Shape)
        requires
            den > 0,
        ensures
            s == self.spec_scaled(num, den),
    {
        match *self {
            Shape::Triangle { x1, y1, x2, y2, x3, y3 } => Shape::Triangle {
                x1: scale_dimen(x1, num, den),
                y1: scale_dimen(y1, num, den),
                x2: scale_dimen(x2, num, den),
                y2: scale_dimen(y2, num, den),
                x3: scale_dimen(x3, num, den),
                y3: scale_dimen(y3, num, den),
            },
            Shape::Ellipse { x, y, rx, ry } => Shape::Ellipse {
                x: scale_dimen(x, num, den),
                y: scale_dimen(y, num, den),
                rx: scale_dimen(rx, num, den),
                ry: scale_dimen(ry, num, den),
            },
            Shape::Rectangle { x1, y1, x2, y2 } => Shape::Rectangle {
                x1: scale_dimen(x1, num, den),
                y1: scale_dimen(y1, num, den),
                x2: scale_dimen(x2, num, den),
                y2: scale_dimen(y2, num, den),
            },
            Shape::RotatedRectangle { x, y, sx, sy, angle } => Shape::RotatedRectangle {
                x: scale_dimen(x, num, den),
                y: scale_dimen(y, num, den),
                sx: scale_dimen(sx, num, den),
                sy: scale_dimen(sy, num, den),
                angle,
            },
        }
    }

    /// Scaling by one leaves a shape as it is.
    pub proof fn lemma_scaled_by_one(self, n: usize)
        requires
            n > 0,
        ensures
            self.spec_scaled(n, n) == self,
    {
        assert forall|a: i32| spec_scale_dimen(a as int, n as int, n as int) == a as int by {
            lemma_scale_by_one(a as int, n as int);
        }
    }

    /// The element of a vector document that draws the shape with the
    /// attributes `attrs`: a polygon for a triangle, an ellipse, a
    /// rectangle, and for a rotated rectangle a unit square in a group that
    /// moves, turns and scales it.
    pub open spec fn spec_svg(self, attrs: Seq<char>) -> Seq<char> {
        match self {
            Shape::Triangle { x1, y1, x2, y2, x3, y3 } => "<polygon "@ + attrs + " points=\""@
                + decimal(x1 as int) + ","@ + decimal(y1 as int) + " "@ + decimal(x2 as int) + ","@
                + decimal(y2 as int) + " "@ + decimal(x3 as int) + ","@ + decimal(y3 as int)
                + "\" />"@,
            Shape::Ellipse { x, y, rx, ry } => "<ellipse "@ + attrs + " cx=\""@ + decimal(x as int)
                + "\" cy=\""@ + decimal(y as int) + "\" rx=\""@ + decimal(rx as int)
                + "\" ry=\""@ + decimal(ry as int) + "\" />"@,
            Shape::Rectangle { x1, y1, x2, y2 } => "<rect "@ + attrs + " x=\""@ + decimal(x1 as int)
                + "\" y=\""@ + decimal(y1 as int) + "\" width=\""@ + decimal(x2 - x1 + 1)
                + "\" height=\""@ + decimal(y2 - y1 + 1) + "\" />"@,
            Shape::RotatedRectangle { x, y, sx, sy, angle } => "<g transform=\"translate("@
                + decimal(x as int) + " "@ + decimal(y as int) + ") rotate("@ + decimal(angle as int)
                + ") scale("@ + decimal(sx as int) + " "@ + decimal(sy as int) + ")\"><rect "@
                + attrs + " x=\"-0.5\" y=\"-0.5\" width=\"1\" height=\"1\" /></g>"@,
        }
    }

    /// The element of a vector document that draws the shape with the
    /// attributes `attrs`.
    pub fn svg(&self, attrs: &str) -> (text: String)
        ensures
            text@ == self.spec_svg(attrs@),
    {
        let mut s: String = String::new();
        match *self {
            Shape::Triangle { x1, y1, x2, y2, x3, y3 } => {
                s.append("<polygon ");
                assert(s@ =~= "<polygon "@);
                s.append(attrs);
                s.append(" points=\"");
                push_decimal(&mut s, x1 as i64);
                s.append(",");
                push_decimal(&mut s, y1 as i64);
                s.append(" ");
                push_decimal(&mut s, x2 as i64);
                s.append(",");
                push_decimal(&mut s, y2 as i64);
                s.append(" ");
                push_decimal(&mut s, x3 as i64);
                s.append(",");
                push_decimal(&mut s, y3 as i64);
                s.append("\" />");
            },
            Shape::Ellipse { x, y, rx, ry } => {
                s.append("<ellipse ");
                assert(s@ =~= "<ellipse "@);
                s.append(attrs);
                s.append(" cx=\"");
                push_decimal(&mut s, x as i64);
                s.append("\" cy=\"");
                push_decimal(&mut s, y as i64);
                s.append("\" rx=\"");
                push_decimal(&mut s, rx as i64);
                s.append("\" ry=\"");
                push_decimal(&mut s, ry as i64);
                s.append("\" />");
            },
            Shape::Rectangle { x1, y1, x2, y2 } => {
                s.append("<rect ");
                assert(s@ =~= "<rect "@);
                s.append(attrs);
                s.append(" x=\"");
                push_decimal(&mut s, x1 as i64);
                s.append("\" y=\"");
                push_decimal(&mut s, y1 as i64);
                s.append("\" width=\"");
                push_decimal(&mut s, x2 as i64 - x1 as i64 + 1);
                s.append("\" height=\"");
                push_decimal(&mut s, y2 as i64 - y1 as i64 + 1);
                s.append("\" />");
            },
            Shape::RotatedRectangle { x, y, sx, sy, angle } => {
                s.append("<g transform=\"translate(");
                assert(s@ =~= "<g transform=\"translate("@);
                push_decimal(&mut s, x as i64);
                s.append(" ");
                push_decimal(&mut s, y as i64);
                s.append(") rotate(");
                push_decimal(&mut s, angle as i64);
                s.append(") scale(");
                push_decimal(&mut s, sx as i64);
                s.append(" ");
                push_decimal(&mut s, sy as i64);
                s.append(")\"><rect ");
                s.append(attrs);
                s.append(" x=\"-0.5\" y=\"-0.5\" width=\"1\" height=\"1\" /></g>");
            },
        }
        s
    }

    /// The shape as a line of text: the number of its family, a colon, and
    /// its numbers with commas between them.
    pub open spec fn spec_serialize(self) -> Seq<char> {
        match self {
            Shape::Triangle { x1, y1, x2, y2, x3, y3 } => "0:"@ + decimal(x1 as int) + ","@
                + decimal(y1 as int) + ","@ + decimal(x2 as int) + ","@ + decimal(y2 as int) + ","@
                + decimal(x3 as int) + ","@ + decimal(y3 as int),
            Shape::Ellipse { x, y, rx, ry } => "1:"@ + decimal(x as int) + ","@ + decimal(y as int)
                + ","@ + decimal(rx as int) + ","@ + decimal(ry as int),
            Shape::Rectangle { x1, y1, x2, y2 } => "2:"@ + decimal(x1 as int) + ","@ + decimal(
                y1 as int,
            ) + ","@ + decimal(x2 as int) + ","@ + decimal(y2 as int),
            Shape::RotatedRectangle { x, y, sx, sy, angle } => "3:"@ + decimal(x as int) + ","@
                + decimal(y as int) + ","@ + decimal(sx as int) + ","@ + decimal(sy as int) + ","@
                + decimal(angle as int),
        }
    }

    /// The shape as a line of text.
    pub fn serialize(&self) -> (text: String)
        ensures
            text@ == self.spec_serialize(),
    {
        let mut s: String = String::new();
        match *self {
            Shape::Triangle { x1, y1, x2, y2, x3, y3 } => {
                s.append("0:");
                assert(s@ =~= "0:"@);
                push_decimal(&mut s, x1 as i64);
                s.append(",");
                push_decimal(&mut s, y1 as i64);
                s.append(",");
                push_decimal(&mut s, x2 as i64);
                s.append(",");
                push_decimal(&mut s, y2 as i64);
                s.append(",");
                push_decimal(&mut s, x3 as i64);
                s.append(",");
                push_decimal(&mut s, y3 as i64);
            },
            Shape::Ellipse { x, y, rx, ry } => {
                s.append("1:");
                assert(s@ =~= "1:"@);
                push_decimal(&mut s, x as i64);
                s.append(",");
                push_decimal(&mut s, y as i64);
                s.append(",");
                push_decimal(&mut s, rx as i64);
                s.append(",");
                push_decimal(&mut s, ry as i64);
            },
            Shape::Rectangle { x1, y1, x2, y2 } => {
                s.append("2:");
                assert(s@ =~= "2:"@);
                push_decimal(&mut s, x1 as i64);
                s.append(",");
                push_decimal(&mut s, y1 as i64);
                s.append(",");
                push_decimal(&mut s, x2 as i64);
                s.append(",");
                push_decimal(&mut s, y2 as i64);
            },
            Shape::RotatedRectangle { x, y, sx, sy, angle } => {
                s.append("3:");
                assert(s@ =~= "3:"@);
                push_decimal(&mut s, x as i64);
                s.append(",");
                push_decimal(&mut s, y as i64);
                s.append(",");
                push_decimal(&mut s, sx as i64);
                s.append(",");
                push_decimal(&mut s, sy as i64);
                s.append(",");
                push_decimal(&mut s, angle as i64);
            },
        }
        s
    }

    /// Writes the spans of the shape on a canvas of `w` by `h` pixels to
    /// the front of `buf`, which holds more entries than the canvas has
    /// rows, and returns their number. The rest of `buf` stays as it was.
    pub fn rasterize(&self, w: usize, h: usize, buf: &mut Vec<Scanline>) -> (n: usize)
        requires
            old(buf).len() > h,
        ensures
            n == self.spans(w, h).len(),
            n <= h,
            filled(old(buf)@, self.spans(w, h), final(buf)@),
            all_within(self.spans(w, h), w, h),
            distinct_rows(self.spans(w, h)),
    {
        proof {
            self.lemma_spans_on_canvas(w, h);
        }
        match *self {
            Shape::Triangle { x1, y1, x2, y2, x3, y3 } => rasterize_triangle(
                w,
                h,
                x1,
                y1,
                x2,
                y2,
                x3,
                y3,
                buf,
            ),
            Shape::Ellipse { x, y, rx, ry } => rasterize_ellipse(w, h, x, y, rx, ry, buf),
            Shape::Rectangle { x1, y1, x2, y2 } => rasterize_rectangle(w, h, x1, y1, x2, y2, buf),
            Shape::RotatedRectangle { x, y, sx, sy, angle } => rasterize_rotated_rectangle(
                w,
                h,
                x,
                y,
                sx,
                sy,
                angle,
                buf,
            ),
        }
    }
}

/// A triangle whose first corner lies on the canvas and whose other
/// corners lie at most 15 pixels from the first in each direction, then
/// mutated, so that it is valid.
fn random_triangle(w: i32, h: i32, rng: &mut Sampler) -> (s: Shape)
    requires
        1 <= w <= MAX_DIM,
        1 <= h <= MAX_DIM,
    ensures
        s.kind() == ShapeType::Triangle,
        s.fits(w as usize, h as usize),
        s.settled(),
        s.drawn_for(
            ShapeType::Triangle,
            w as usize,
            h as usize,
            old(rng).budget() - final(rng).budget(),
            final(rng).budget() == 0,
        ),
        final(rng).budget() <= old(rng).budget(),
{
    let x1: i32 = rng.uniform(0, w);
    let y1: i32 = rng.uniform(0, h);
    let x2: i32 = x1 + rng.uniform(0, 31) - 15;
    let y2: i32 = y1 + rng.uniform(0, 31) - 15;
    let x3: i32 = x1 + rng.uniform(0, 31) - 15;
    let y3: i32 = y1 + rng.uniform(0, 31) - 15;
    let mut shape: Shape = Shape::Triangle { x1, y1, x2, y2, x3, y3 };
    let ghost seed = shape;
    mutate_triangle(w as usize, h as usize, rng, &mut shape);
    assert(seed.starts(w as usize, h as usize));
    shape
}

/// An ellipse with its centre on the canvas and radii between 1 and 32.
fn random_ellipse(w: i32, h: i32, rng: &mut Sampler) -> (s: Shape)
    requires
        1 <= w <= MAX_DIM,
        1 <= h <= MAX_DIM,
    ensures
        s.kind() == ShapeType::Ellipse,
        s.fits(w as usize, h as usize),
        s.starts(w as usize, h as usize),
        final(rng).budget() == old(rng).budget(),
{
    let x: i32 = rng.uniform(0, w);
    let y: i32 = rng.uniform(0, h);
    let rx: i32 = rng.uniform(0, 32) + 1;
    let ry: i32 = rng.uniform(0, 32) + 1;
    Shape::Ellipse { x, y, rx, ry }
}

/// A rectangle with its first corner on the canvas and its second between
/// 1 and 32 pixels further right and down, but on the canvas.
fn random_rectangle(w: i32, h: i32, rng: &mut Sampler) -> (s: Shape)
    requires
        1 <= w <= MAX_DIM,
        1 <= h <= MAX_DIM,
    ensures
        s.kind() == ShapeType::Rectangle,
        s.fits(w as usize, h as usize),
        s.starts(w as usize, h as usize),
        final(rng).budget() == old(rng).budget(),
{
    let x1: i32 = rng.uniform(0, w);
    let y1: i32 = rng.uniform(0, h);
    let x2: i32 = shifted(x1, rng.uniform(0, 32) + 1, 0, w as i64 - 1);
    let y2: i32 = shifted(y1, rng.uniform(0, 32) + 1, 0, h as i64 - 1);
    Shape::Rectangle { x1, y1, x2, y2 }
}

/// A rotated rectangle with its centre on the canvas, sides between 1 and
/// 32 and an angle of a full turn.
fn random_rotated_rectangle(w: i32, h: i32, rng: &mut Sampler) -> (s: Shape)
    requires
        1 <= w <= MAX_DIM,
        1 <= h <= MAX_DIM,
    ensures
        s.kind() == ShapeType::RotatedRectangle,
        s.fits(w as usize, h as usize),
        s.starts(w as usize, h as usize),
        final(rng).budget() == old(rng).budget(),
{
    let x: i32 = rng.uniform(0, w);
    let y: i32 = rng.uniform(0, h);
    let sx: i32 = rng.uniform(0, 32) + 1;
    let sy: i32 = rng.uniform(0, 32) + 1;
    let angle: i32 = rng.uniform(0, 360);
    Shape::RotatedRectangle { x, y, sx, sy, angle }
}

/// Whether the search keeps the shape: whether a triangle is valid.
pub fn is_settled(shape: &Shape) -> (ok: bool)
    ensures
        ok == shape.settled(),
{
    match *shape {
        Shape::Triangle { x1, y1, x2, y2, x3, y3 } => is_valid_triangle(x1, y1, x2, y2, x3, y3),
        _ => true,
    }
}

/// Perturbs a triangle, one corner at a time by 31 times a normal draw in
/// each direction, until it is valid. Where the sampler runs out before
/// that, the triangle is left as it was given, if it was valid, and is else
/// the triangle with the corners `(0, 0)`, `(16, 0)` and `(0, 16)`.
fn mutate_triangle(w: usize, h: usize, rng: &mut Sampler, shape: &mut Shape)
    requires
        w <= MAX_DIM,
        h <= MAX_DIM,
        old(shape).kind() == ShapeType::Triangle,
    ensures
        final(shape).kind() == ShapeType::Triangle,
        final(shape).settled(),
        old(shape).fits(w, h) && old(shape).roomy(w, h) ==> final(shape).fits(w, h),
        final(rng).budget() <= old(rng).budget(),
        old(rng).budget() > 0 ==> final(rng).budget() < old(rng).budget(),
        old(shape).mutated_to(
            *final(shape),
            w,
            h,
            old(rng).budget() - final(rng).budget(),
            final(rng).budget() == 0,
        ),
{
    let first: Shape = *shape;
    let ghost mut moves: Seq<(int, int, int)> = Seq::empty();
    let mut done: bool = false;
    while !done && rng.left() > 0
        invariant
            w <= MAX_DIM,
            h <= MAX_DIM,
            first == *old(shape),
            shape.kind() == ShapeType::Triangle,
            done == (moves.len() > 0 && shape.settled()),
            old(rng).budget() > 0 && moves.len() > 0 ==> rng.budget() < old(rng).budget(),
            old(shape).fits(w, h) && old(shape).roomy(w, h) ==> shape.fits(w, h),
            rng.budget() <= old(rng).budget(),
            moves.len() == old(rng).budget() - rng.budget(),
            *shape == first.perturbed_by(w, h, moves),
            forall|i: int| 0 <= i < moves.len() ==> 0 <= (#[trigger] moves[i]).0 < 3,
            forall|k: int|
                0 < k < moves.len() ==> !(#[trigger] first.perturbed_by(w, h, moves.take(k))).settled(),
        decreases rng.budget() + (if done { 0int } else { 1int }),
    {
        rng.spend();
        let dx: i32 = rng.offset(31);
        let dy: i32 = rng.offset(31);
        let pick: i32 = rng.uniform(0, 3);
        proof {
            shape.lemma_perturbed_keeps(w, h, pick as int, dx as int, dy as int);
        }
        shape.perturb(w, h, pick, dx, dy);
        proof {
            let longer = moves.push((pick as int, dx as int, dy as int));
            assert(longer.drop_last() =~= moves);
            assert forall|k: int| 0 < k < longer.len() implies !(#[trigger] first.perturbed_by(
                w,
                h,
                longer.take(k),
            )).settled() by {
                if k < moves.len() {
                    assert(longer.take(k) =~= moves.take(k));
                } else {
                    assert(longer.take(k) =~= moves);
                }
            }
            moves = longer;
        }
        done = is_settled(shape);
    }
    if !done {
        if is_settled(&first) {
            *shape = first;
        } else {
            *shape = Shape::Triangle { x1: 0, y1: 0, x2: 16, y2: 0, x3: 0, y3: 16 };
            proof {
                lemma_fallback_settled();
            }
        }
    }
    proof {
        reveal(Shape::mutated_to);
        assert(first.reached(w, h, moves) == *shape);
    }
}

/// The triangle with the corners `(0, 0)`, `(16, 0)` and `(0, 16)` is
/// valid: its angles are of 90, 45 and 45 degrees.
pub proof fn lemma_fallback_settled()
    ensures
        (Shape::Triangle { x1: 0, y1: 0, x2: 16, y2: 0, x3: 0, y3: 16 }).settled(),
{
    // at the corner of the right angle the inner product is zero; at the
    // others it is 256, as is twice the area, and 256 squared is less than
    // three times 256 squared
    assert(256int * 256int == 65536) by (nonlinear_arith);
    assert((-16int) * (-16int) == 256 && 16int * 16int == 256 && 16int * (-16int) == -256)
        by (nonlinear_arith);
    assert(wide_angle(16, 0, 0, 16));
    assert(wide_angle(-16, 0, -16, 16));
    assert(wide_angle(0, -16, 16, -16));
}

/// Perturbs an ellipse once, if the sampler has not run out: its centre,
/// the one radius or the other, each as likely, by 16 times a normal draw.
fn mutate_ellipse(w: usize, h: usize, rng: &mut Sampler, shape: &mut Shape)
    requires
        w <= MAX_DIM,
        h <= MAX_DIM,
        old(shape).kind() == ShapeType::Ellipse,
    ensures
        final(shape).kind() == ShapeType::Ellipse,
        old(shape).fits(w, h) && old(shape).roomy(w, h) ==> final(shape).fits(w, h),
        final(rng).budget() <= old(rng).budget(),
        old(rng).budget() > 0 ==> final(rng).budget() < old(rng).budget(),
        old(shape).mutated_to(
            *final(shape),
            w,
            h,
            old(rng).budget() - final(rng).budget(),
            final(rng).budget() == 0,
        ),
{
    if rng.spend() {
        let pick: i32 = rng.uniform(0, 3);
        let d1: i32 = rng.offset(16);
        let d2: i32 = if pick == 0 { rng.offset(16) } else { 0 };
        proof {
            shape.lemma_perturbed_keeps(w, h, pick as int, d1 as int, d2 as int);
            old(shape).lemma_one_move(
                w,
                h,
                pick as int,
                d1 as int,
                d2 as int,
                rng.budget() == 0,
            );
        }
        shape.perturb(w, h, pick, d1, d2);
    } else {
        proof {
            old(shape).lemma_no_move(w, h);
        }
    }
}

/// Perturbs a rectangle once, if the sampler has not run out: the one
/// corner or the other, each as likely, by 16 times a normal draw in each
/// direction. The corners are put in order in any case.
fn mutate_rectangle(w: usize, h: usize, rng: &mut Sampler, shape: &mut Shape)
    requires
        w <= MAX_DIM,
        h <= MAX_DIM,
        old(shape).kind() == ShapeType::Rectangle,
    ensures
        final(shape).kind() == ShapeType::Rectangle,
        final(shape).canonical(),
        old(shape).fits(w, h) && old(shape).roomy(w, h) ==> final(shape).fits(w, h),
        final(rng).budget() <= old(rng).budget(),
        old(rng).budget() > 0 ==> final(rng).budget() < old(rng).budget(),
        old(shape).mutated_to(
            *final(shape),
            w,
            h,
            old(rng).budget() - final(rng).budget(),
            final(rng).budget() == 0,
        ),
{
    if rng.spend() {
        let pick: i32 = rng.uniform(0, 2);
        let d1: i32 = rng.offset(16);
        let d2: i32 = rng.offset(16);
        proof {
            shape.lemma_perturbed_keeps(w, h, pick as int, d1 as int, d2 as int);
            old(shape).lemma_one_move(
                w,
                h,
                pick as int,
                d1 as int,
                d2 as int,
                rng.budget() == 0,
            );
        }
        shape.perturb(w, h, pick, d1, d2);
    } else {
        let old_shape: Shape = *shape;
        match old_shape {
            Shape::Rectangle { x1, y1, x2, y2 } => {
                *shape = Shape::Rectangle {
                    x1: if x1 > x2 { x2 } else { x1 },
                    y1: if y1 > y2 { y2 } else { y1 },
                    x2: if x1 > x2 { x1 } else { x2 },
                    y2: if y1 > y2 { y1 } else { y2 },
                };
            },
            _ => {},
        }
        proof {
            old(shape).lemma_no_move(w, h);
        }
    }
}

/// Perturbs a rotated rectangle once, if the sampler has not run out: its
/// centre or its sides by 16 times a normal draw in each direction, or its
/// angle by 32 times a normal draw, each as likely.
fn mutate_rotated_rectangle(w: usize, h: usize, rng: &mut Sampler, shape: &mut Shape)
    requires
        w <= MAX_DIM,
        h <= MAX_DIM,
        old(shape).kind() == ShapeType::RotatedRectangle,
    ensures
        final(shape).kind() == ShapeType::RotatedRectangle,
        old(shape).fits(w, h) && old(shape).roomy(w, h) ==> final(shape).fits(w, h),
        final(rng).budget() <= old(rng).budget(),
        old(rng).budget() > 0 ==> final(rng).budget() < old(rng).budget(),
        old(shape).mutated_to(
            *final(shape),
            w,
            h,
            old(rng).budget() - final(rng).budget(),
            final(rng).budget() == 0,
        ),
{
    if rng.spend() {
        let pick: i32 = rng.uniform(0, 3);
        let d1: i32 = if pick == 0 || pick == 1 { rng.offset(16) } else { rng.offset(32) };
        let d2: i32 = if pick == 0 || pick == 1 { rng.offset(16) } else { 0 };
        proof {
            shape.lemma_perturbed_keeps(w, h, pick as int, d1 as int, d2 as int);
            old(shape).lemma_one_move(
                w,
                h,
                pick as int,
                d1 as int,
                d2 as int,
                rng.budget() == 0,
            );
        }
        shape.perturb(w, h, pick, d1, d2);
    } else {
        proof {
            old(shape).lemma_no_move(w, h);
        }
    }
}

} // verus!
