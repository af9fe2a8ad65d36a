//! The model: the target, the canvas that approaches it, and the history
//! of the shapes that were stamped on the canvas.

use vstd::prelude::*;
use vstd::string::StringExecFns;
use crate::canvas::{Pixels, MAX_AREA, erased, drawn, sq_err, best_color, erase, draw_lines};
use crate::color::Color;
use crate::scanline::Scanline;
use crate::shape::{Shape, ShapeType, MAX_DIM};
use crate::state::{State, is_first_lowest, first_lowest};
use crate::worker::{Worker, Task, stamped, lemma_energy_is_distance};
use crate::metric::{
    in_span, lemma_drawn_outside, lemma_drawn_opaque, lemma_erased_opaque, opaque,
};
use crate::plain::{lemma_average_plain, lemma_stamp_on_plain};
use crate::scanline::lemma_distinct_rows_disjoint;
use crate::text::{
    begins, count_begins, decimal, hex_byte, joined, lemma_begins_not, lemma_begins_with_front,
    lemma_count_begins_concat, lemma_count_begins_one, ratio, push_decimal, push_hex_byte, push_ratio,
};

verus! {

/// The bytes of a canvas of `w` by `h` pixels on which, over the
/// background `bg`, the shapes `shapes` were stamped in turn, each scaled
/// by `num / den` and in its colour of `colors`.
pub open spec fn replayed(
    bg: Color,
    w: usize,
    h: usize,
    shapes: Seq<Shape>,
    colors: Seq<Color>,
    num: usize,
    den: usize,
) -> Seq<u8>
    decreases shapes.len(),
{
    if shapes.len() == 0 {
        erased((4 * (w * h)) as nat, bg)
    } else {
        drawn(
            replayed(bg, w, h, shapes.drop_last(), colors.drop_last(), num, den),
            w as int,
            colors.last(),
            shapes.last().spec_scaled(num, den).spans(w, h),
        )
    }
}

/// A replay has the bytes of its canvas.
pub proof fn lemma_replayed_len(
    bg: Color,
    w: usize,
    h: usize,
    shapes: Seq<Shape>,
    colors: Seq<Color>,
    num: usize,
    den: usize,
)
    ensures
        replayed(bg, w, h, shapes, colors, num, den).len() == 4 * (w * h),
    decreases shapes.len(),
{
    if shapes.len() > 0 {
        lemma_replayed_len(bg, w, h, shapes.drop_last(), colors.drop_last(), num, den);
        lemma_drawn_outside(
            replayed(bg, w, h, shapes.drop_last(), colors.drop_last(), num, den),
            w as int,
            colors.last(),
            shapes.last().spec_scaled(num, den).spans(w, h),
        );
    }
}

/// A replay over an opaque background is opaque.
pub proof fn lemma_replayed_opaque(
    bg: Color,
    w: usize,
    h: usize,
    shapes: Seq<Shape>,
    colors: Seq<Color>,
    num: usize,
    den: usize,
)
    requires
        bg.spec_a() == 255,
    ensures
        opaque(replayed(bg, w, h, shapes, colors, num, den)),
    decreases shapes.len(),
{
    if shapes.len() == 0 {
        lemma_erased_opaque((4 * (w * h)) as nat, bg);
    } else {
        lemma_replayed_opaque(bg, w, h, shapes.drop_last(), colors.drop_last(), num, den);
        lemma_drawn_opaque(
            replayed(bg, w, h, shapes.drop_last(), colors.drop_last(), num, den),
            w as int,
            colors.last(),
            shapes.last().spec_scaled(num, den).spans(w, h),
        );
    }
}

/// A replay at the scale of one to one is the same at any scale of a
/// number to itself.
pub proof fn lemma_replayed_unscaled(
    bg: Color,
    w: usize,
    h: usize,
    shapes: Seq<Shape>,
    colors: Seq<Color>,
    n: usize,
)
    requires
        n > 0,
    ensures
        replayed(bg, w, h, shapes, colors, n, n) == replayed(bg, w, h, shapes, colors, 1, 1),
    decreases shapes.len(),
{
    if shapes.len() > 0 {
        lemma_replayed_unscaled(bg, w, h, shapes.drop_last(), colors.drop_last(), n);
        shapes.last().lemma_scaled_by_one(n);
        shapes.last().lemma_scaled_by_one(1);
    }
}

/// The length `a` scaled by `num / den` and rounded up.
pub open spec fn scaled_up(a: int, num: int, den: int) -> int {
    (a * num + den - 1) / den
}

/// The model of one image.
pub struct Model {
    /// The size of the working canvas.
    pub w: usize,
    pub h: usize,
    /// The size of the output.
    pub sw: usize,
    pub sh: usize,
    /// The output is `out_size / bigger` times as large as the working
    /// canvas, `bigger` being the greater side of that.
    pub out_size: usize,
    pub bigger: usize,
    /// The background: the average colour of the target.
    pub bg: Color,
    pub target: Pixels,
    pub current: Pixels,
    /// The squared distance of `current` from `target`.
    pub score: u64,
    /// The history: the shapes that were stamped, and their colours.
    pub shapes: Vec<Shape>,
    pub colors: Vec<Color>,
    pub workers: Vec<Worker>,
    pub scanlines: Vec<Scanline>,
}

impl Model {
    /// The canvases have the working size; the background is the average
    /// colour of the target; the current canvas is the replay of the
    /// history over the background; the score is its squared distance from
    /// the target; the output size is the working size times the scale,
    /// rounded up; and the workers are fit for the working size.
    pub open spec fn wf(&self) -> bool {
        &&& self.target.wf()
        &&& self.current.wf()
        &&& self.target.w == self.w
        &&& self.target.h == self.h
        &&& self.current.w == self.w
        &&& self.current.h == self.h
        &&& 1 <= self.w <= MAX_DIM
        &&& 1 <= self.h <= MAX_DIM
        &&& self.bigger == (if self.w > self.h { self.w } else { self.h })
        &&& self.sw == scaled_up(self.w as int, self.out_size as int, self.bigger as int)
        &&& self.sh == scaled_up(self.h as int, self.out_size as int, self.bigger as int)
        &&& self.bg == self.target.spec_average()
        &&& self.bg.spec_a() == 255
        &&& self.out_size <= MAX_DIM
        &&& self.sw <= self.out_size
        &&& self.sh <= self.out_size
        &&& self.shapes.len() == self.colors.len()
        &&& self.current.buf@ == replayed(self.bg, self.w, self.h, self.shapes@, self.colors@, 1, 1)
        &&& self.score == sq_err(self.target.buf@, self.current.buf@)
        &&& self.scanlines.len() > self.h
        &&& forall|i: int|
            0 <= i < self.workers.len() ==> (#[trigger] self.workers[i]).wf() && self.workers[i].w
                == self.w && self.workers[i].h == self.h
    }

    /// A model of `target` with an empty history: the current canvas is
    /// filled with the average colour of the target. The output is as
    /// large as makes its greater side `out_size`.
    pub fn new(target: Pixels, workers: Vec<Worker>, out_size: usize) -> (m: Model)
        requires
            target.wf(),
            1 <= target.w,
            1 <= target.h,
            out_size <= MAX_DIM,
            forall|i: int|
                0 <= i < workers.len() ==> (#[trigger] workers[i]).wf() && workers[i].w == target.w
                    && workers[i].h == target.h,
        ensures
            m.wf(),
            m.target == target,
            m.workers == workers,
            m.out_size == out_size,
            m.shapes@.len() == 0,
    {
        let w: usize = target.w;
        let h: usize = target.h;
        assert(w <= MAX_AREA && h <= MAX_AREA && w * h > 0) by (nonlinear_arith)
            requires
                w * h <= MAX_AREA,
                w >= 1,
                h >= 1,
        ;
        let bigger: usize = if w > h { w } else { h };
        let sw: usize = scale_up(w, out_size, bigger);
        let sh: usize = scale_up(h, out_size, bigger);
        let bg: Color = target.average_color();
        let mut current: Pixels = Pixels::new(w, h);
        current.erase(&bg);
        let score: u64 = Pixels::difference_full(&target, &current);
        let shapes: Vec<Shape> = Vec::new();
        let colors: Vec<Color> = Vec::new();
        let scanlines: Vec<Scanline> = Scanline::buffer(h);
        Model {
            w,
            h,
            sw,
            sh,
            out_size,
            bigger,
            bg,
            target,
            current,
            score,
            shapes,
            colors,
            workers,
            scanlines,
        }
    }

    /// Stamps `shape` on the current canvas at `alpha`, in the colour that
    /// brings the canvas closest to the target, and adds the shape and the
    /// colour to the history. Returns both.
    pub fn add(&mut self, shape: Shape, alpha: u8) -> (r: (Shape, Color))
        requires
            old(self).wf(),
            alpha > 0,
        ensures
            final(self).wf(),
            r.0 == shape,
            r.1 == best_color(
                old(self).target.buf@,
                old(self).current.buf@,
                old(self).w as int,
                shape.spans(old(self).w, old(self).h),
                alpha,
            ),
            final(self).shapes@ == old(self).shapes@.push(r.0),
            final(self).colors@ == old(self).colors@.push(r.1),
            final(self).current.buf@ == stamped(
                old(self).target.buf@,
                old(self).current.buf@,
                old(self).w,
                old(self).h,
                shape,
                alpha,
            ),
            final(self).score == sq_err(final(self).target.buf@, final(self).current.buf@),
            final(self).same_task(old(self)),
            final(self).workers == old(self).workers,
    {
        let before: Pixels = self.current.copy();
        let n: usize = shape.rasterize(self.w, self.h, &mut self.scanlines);
        let lines: &[Scanline] = &self.scanlines[0..n];
        assert(lines@ == shape.spans(self.w, self.h));
        let color: Color = self.current.compute_color(&self.target, lines, alpha);
        self.current.draw_lines(&color, lines);
        let score: u64 = Pixels::difference_partial(
            &self.target,
            &before,
            &self.current,
            self.score,
            lines,
        );
        proof {
            lemma_energy_is_distance(
                self.target.buf@,
                before.buf@,
                self.w,
                self.h,
                shape,
                alpha,
                self.score,
            );
            shape.lemma_scaled_by_one(1);
            assert(old(self).shapes@.push(shape).drop_last() =~= old(self).shapes@);
            assert(old(self).colors@.push(color).drop_last() =~= old(self).colors@);
        }
        self.shapes.push(shape);
        self.colors.push(color);
        self.score = score;
        (shape, color)
    }

    /// The task of the workers: the target, the current canvas, its size
    /// and its score.
    pub open spec fn task(&self) -> Task {
        Task {
            target: self.target.buf@,
            current: self.current.buf@,
            w: self.w,
            h: self.h,
            score: self.score,
        }
    }

    /// The number of runs that each of `workers` workers makes where
    /// `m` runs are asked for: its share of them, one at least.
    pub open spec fn share(m: u8, workers: int) -> int {
        if m as int / workers < 1 {
            1
        } else {
            m as int / workers
        }
    }

    /// The number of runs that each of `workers` workers makes where `m`
    /// runs are asked for.
    pub fn runs_each(m: u8, workers: usize) -> (runs: u8)
        requires
            workers > 0,
        ensures
            runs == Model::share(m, workers as int),
    {
        let part: usize = m as usize / workers;
        if part < 1 {
            1
        } else {
            part as u8
        }
    }

    /// `found` are proposals of the workers of this model, one from each
    /// and in their order: each is what the worker finds in `runs` runs of
    /// `n` random states each, with the budget that its sampler had, and
    /// comes with its energy. `after` are the workers after their search.
    pub open spec fn proposed(
        &self,
        after: Seq<Worker>,
        t: ShapeType,
        a: u8,
        n: int,
        runs: int,
        found: Seq<(State, u64)>,
    ) -> bool {
        &&& found.len() == after.len()
        &&& self.truthful(found)
        &&& forall|i: int|
            0 <= i < found.len() ==> {
                &&& (#[trigger] found[i]).0.alpha == a
                &&& found[i].0.shape.kind() == t
                &&& found[i].0.shape.canonical()
                &&& found[i].0.shape.settled()
                &&& self.task().finds(
                    t,
                    a,
                    n,
                    runs,
                    found[i].0,
                    self.workers[i].rng.budget() as int,
                    after[i].rng.budget() as int,
                )
            }
    }

    /// The proposals of the workers, in their order: each worker is told
    /// the score and gives the best state of its search, with its energy.
    /// Each worker makes `m` runs divided by the number of workers, one at
    /// least.
    #[verifier::rlimit(40)]
    pub fn propose(&mut self, t: ShapeType, a: u8, n: u32, m: u8) -> (found: Vec<(State, u64)>)
        requires
            old(self).wf(),
            old(self).workers.len() > 0,
            a > 0,
        ensures
            final(self).wf(),
            final(self).same_task(old(self)),
            final(self).same_canvas(old(self)),
            final(self).workers.len() == old(self).workers.len(),
            old(self).proposed(
                final(self).workers@,
                t,
                a,
                if n == 0 { 1 } else { n as int },
                Model::share(m, old(self).workers.len() as int),
                found@,
            ),
    {
        let score: u64 = self.score;
        let count: usize = self.workers.len();
        let runs: u8 = Model::runs_each(m, count);
        let ghost task = self.task();
        let ghost draws = if n == 0 { 1 } else { n as int };
        let mut found: Vec<(State, u64)> = Vec::new();
        let mut i: usize = 0;
        while i < count
            invariant
                i <= count,
                count == self.workers.len(),
                a > 0,
                runs >= 1,
                runs == Model::share(m, count as int),
                draws == (if n == 0 { 1 } else { n as int }),
                self.wf(),
                self.same_task(old(self)),
                self.same_canvas(old(self)),
                task == old(self).task(),
                score == self.score,
                found.len() == i,
                forall|k: int|
                    i <= k < count ==> (#[trigger] self.workers[k]).rng.budget() == old(
                        self,
                    ).workers[k].rng.budget(),
                forall|k: int|
                    0 <= k < i ==> {
                        &&& (#[trigger] found[k]).0.alpha == a
                        &&& found[k].0.shape.kind() == t
                        &&& found[k].0.shape.canonical()
                        &&& found[k].0.shape.settled()
                        &&& found[k].1 == sq_err(
                            self.target.buf@,
                            stamped(
                                self.target.buf@,
                                self.current.buf@,
                                self.w,
                                self.h,
                                found[k].0.shape,
                                a,
                            ),
                        )
                        &&& task.finds(
                            t,
                            a,
                            draws,
                            runs as int,
                            found[k].0,
                            old(self).workers[k].rng.budget() as int,
                            self.workers[k].rng.budget() as int,
                        )
                    },
            decreases count - i,
        {
            let ghost before = self.workers@;
            let ghost sofar = found@;
            assert(before[i as int].wf());
            self.workers[i].init(score);
            let mut state: State = self.workers[i].best_hill_climb_state(
                &self.target,
                &self.current,
                t,
                a,
                n,
                runs,
            );
            let energy: u64 = state.energy(&mut self.workers[i], &self.target, &self.current);
            proof {
                lemma_energy_is_distance(
                    self.target.buf@,
                    self.current.buf@,
                    self.w,
                    self.h,
                    state.shape,
                    a,
                    score,
                );
                assert forall|k: int| 0 <= k < self.workers.len() implies (
                #[trigger] self.workers[k]).wf() && self.workers[k].w == self.w
                    && self.workers[k].h == self.h by {
                    if k != i {
                        assert(self.workers[k] == before[k]);
                    }
                }
                assert forall|k: int| 0 <= k < i implies task.finds(
                    t,
                    a,
                    draws,
                    runs as int,
                    (#[trigger] sofar[k]).0,
                    old(self).workers[k].rng.budget() as int,
                    self.workers[k].rng.budget() as int,
                ) by {
                    assert(self.workers[k] == before[k]);
                }
                assert forall|k: int| i < k < count implies (
                #[trigger] self.workers[k]).rng.budget() == old(self).workers[k].rng.budget() by {
                    assert(self.workers[k] == before[k]);
                }
            }
            found.push((state, energy));
            i += 1;
        }
        found
    }

    /// Commits the first of the proposals that has the lowest energy: its
    /// shape is stamped at its alpha and added to the history.
    pub fn commit(&mut self, found: &Vec<(State, u64)>) -> (r: (Shape, Color))
        requires
            old(self).wf(),
            found.len() > 0,
            forall|i: int| 0 <= i < found.len() ==> (#[trigger] found[i]).0.alpha > 0,
        ensures
            final(self).wf(),
            final(self).same_task(old(self)),
            final(self).workers == old(self).workers,
            exists|k: int|
                {
                    &&& is_first_lowest(found@, k)
                    &&& r.0 == (#[trigger] found[k]).0.shape
                    &&& old(self).committed(found[k].0.shape, found[k].0.alpha, r.1, final(self))
                },
            old(self).truthful(found@) ==> forall|j: int|
                0 <= j < found.len() ==> final(self).score <= (#[trigger] found[j]).1,
            old(self).truthful(found@) && (exists|j: int|
                0 <= j < found.len() && (#[trigger] found[j]).1 <= old(self).score)
                ==> final(self).score <= old(self).score,
    {
        let k: usize = first_lowest(found);
        let best: State = found[k].0;
        let r = self.add(best.shape, best.alpha);
        assert(is_first_lowest(found@, k as int) && r.0 == found[k as int].0.shape && old(
            self,
        ).committed(found[k as int].0.shape, found[k as int].0.alpha, r.1, final(self)));
        r
    }

    /// Each of the proposals `found` comes with the energy of its state:
    /// the squared distance from the target of the current canvas with the
    /// shape of the state stamped on it.
    pub open spec fn truthful(&self, found: Seq<(State, u64)>) -> bool {
        forall|i: int|
            0 <= i < found.len() ==> (#[trigger] found[i]).1 == sq_err(
                self.target.buf@,
                stamped(
                    self.target.buf@,
                    self.current.buf@,
                    self.w,
                    self.h,
                    found[i].0.shape,
                    found[i].0.alpha,
                ),
            )
    }

    /// `after` is this model after `shape` was committed at `alpha` in
    /// the colour `color`: the colour is the best one, the canvas is the
    /// one with the shape stamped on it, the score is the squared distance
    /// of that canvas from the target, and the history has grown by the
    /// shape and the colour.
    pub open spec fn committed(&self, shape: Shape, alpha: u8, color: Color, after: &Model) -> bool {
        &&& color == best_color(
            self.target.buf@,
            self.current.buf@,
            self.w as int,
            shape.spans(self.w, self.h),
            alpha,
        )
        &&& after.current.buf@ == stamped(
            self.target.buf@,
            self.current.buf@,
            self.w,
            self.h,
            shape,
            alpha,
        )
        &&& after.score == sq_err(after.target.buf@, after.current.buf@)
        &&& after.shapes@ == self.shapes@.push(shape)
        &&& after.colors@ == self.colors@.push(color)
    }

    /// One step: every worker proposes a shape of the family `t` at the
    /// alpha `a`, found in runs of `n` random states each, `m` runs divided
    /// among the workers; the first proposal of the lowest energy is
    /// committed. Returns the shape and its colour.
    #[verifier::rlimit(40)]
    pub fn step(&mut self, t: ShapeType, a: u8, n: u32, m: u8) -> (r: (Shape, Color))
        requires
            old(self).wf(),
            old(self).workers.len() > 0,
            a > 0,
        ensures
            final(self).wf(),
            final(self).same_task(old(self)),
            final(self).workers.len() == old(self).workers.len(),
            r.0.kind() == t,
            r.0.canonical(),
            old(self).committed(r.0, a, r.1, final(self)),
            exists|found: Seq<(State, u64)>, k: int|
                {
                    &&& #[trigger] is_first_lowest(found, k)
                    &&& r.0 == found[k].0.shape
                    &&& final(self).score == found[k].1
                    &&& old(self).proposed(
                        final(self).workers@,
                        t,
                        a,
                        if n == 0 { 1 } else { n as int },
                        Model::share(m, old(self).workers.len() as int),
                        found,
                    )
                },
    {
        let found: Vec<(State, u64)> = self.propose(t, a, n, m);
        let ghost searched = *self;
        let r = self.commit(&found);
        proof {
            let k = choose|k: int|
                {
                    &&& is_first_lowest(found@, k)
                    &&& r.0 == (#[trigger] found[k]).0.shape
                    &&& searched.committed(found[k].0.shape, found[k].0.alpha, r.1, self)
                };
            assert(is_first_lowest(found@, k) && r.0 == found@[k].0.shape);
        }
        r
    }

    /// The bytes of the output: on a canvas of the output size, filled
    /// with the background, every shape of the history is stamped in its
    /// colour, scaled as the output is.
    pub fn render(&self) -> (img: Vec<u8>)
        requires
            self.wf(),
            self.sw * self.sh <= MAX_AREA,
        ensures
            img@ == replayed(
                self.bg,
                self.sw,
                self.sh,
                self.shapes@,
                self.colors@,
                self.out_size,
                self.bigger,
            ),
    {
        replay(
            &self.bg,
            self.sw,
            self.sh,
            &self.shapes,
            &self.colors,
            self.out_size,
            self.bigger,
        )
    }

    /// Replaying the history over a fresh background at the working size
    /// gives the current canvas, byte for byte, whatever number the scale of
    /// one is written with.
    pub proof fn lemma_replay_is_current(&self, n: usize)
        requires
            self.wf(),
            n > 0,
        ensures
            replayed(self.bg, self.w, self.h, self.shapes@, self.colors@, n, n)
                == self.current.buf@,
    {
        lemma_replayed_unscaled(self.bg, self.w, self.h, self.shapes@, self.colors@, n);
    }

    /// The current canvas is opaque: every pixel of it has the alpha 255,
    /// whatever was stamped on it.
    pub proof fn lemma_current_opaque(&self)
        requires
            self.wf(),
        ensures
            opaque(self.current.buf@),
    {
        lemma_replayed_opaque(self.bg, self.w, self.h, self.shapes@, self.colors@, 1, 1);
    }

    /// The first shape on a target of one colour: where the target holds
    /// the one opaque colour `u` and nothing was stamped yet, the
    /// background is `u`; and after a shape is committed, every pixel
    /// outside its spans holds the background still, and every pixel of its
    /// spans is opaque and has each of its channels within one of that of
    /// `u`, never above it. `k` is the place of any byte of the canvas.
    pub proof fn lemma_first_shape_on_plain_target(
        &self,
        after: &Model,
        shape: Shape,
        alpha: u8,
        color: Color,
        u: Color,
        k: int,
    )
        requires
            self.wf(),
            self.shapes@.len() == 0,
            self.target.buf@ == erased(self.target.buf@.len(), u),
            u.spec_a() == 255,
            alpha > 0,
            self.committed(shape, alpha, color, after),
            0 <= k < 4 * (self.w * self.h),
        ensures
            self.bg == u,
            ({
                let covered = exists|i: int|
                    0 <= i < shape.spans(self.w, self.h).len() && in_span(
                        self.w as int,
                        #[trigger] shape.spans(self.w, self.h)[i],
                        k,
                    );
                &&& !covered ==> after.current.buf@[k] == self.bg.channel(k % 4)
                &&& covered && k % 4 == 3 ==> after.current.buf@[k] == 255
                &&& covered && k % 4 != 3 ==> u.channel(k % 4) - 1 <= after.current.buf@[k]
                    <= u.channel(k % 4)
            }),
    {
        assert(self.w * self.h > 0) by (nonlinear_arith)
            requires
                self.w >= 1,
                self.h >= 1,
        ;
        lemma_average_plain(self.target, u);
        let lines = shape.spans(self.w, self.h);
        shape.lemma_spans_on_canvas(self.w, self.h);
        lemma_distinct_rows_disjoint(lines);
        assert(self.current.buf@ == erased((4 * (self.w * self.h)) as nat, u));
        assert(self.target.buf@ == erased((4 * (self.w * self.h)) as nat, u));
        lemma_stamp_on_plain(self.w, self.h, u, alpha, lines, k);
    }

    /// Where the output has the working size, what `render` gives is the
    /// current canvas.
    pub proof fn lemma_render_is_current(&self)
        requires
            self.wf(),
            self.out_size == self.bigger,
        ensures
            self.sw == self.w,
            self.sh == self.h,
            replayed(
                self.bg,
                self.sw,
                self.sh,
                self.shapes@,
                self.colors@,
                self.out_size,
                self.bigger,
            ) == self.current.buf@,
    {
        let b = self.bigger as int;
        let (wi, hi) = (self.w as int, self.h as int);
        assert((wi * b + b - 1) / b == wi && (hi * b + b - 1) / b == hi) by (nonlinear_arith)
            requires
                b > 0,
                wi >= 0,
                hi >= 0,
        ;
        self.lemma_replay_is_current(self.bigger);
    }

    /// The attributes that give an element the colour `c`: its red, green
    /// and blue as the fill, and its alpha as a fraction of 255 as the
    /// opacity of the fill.
    pub open spec fn spec_attrs(c: Color) -> Seq<char> {
        "fill=\"#"@ + hex_byte(c.spec_r()) + hex_byte(c.spec_g()) + hex_byte(c.spec_b())
            + "\" fill-opacity=\""@ + ratio(c.spec_a() as nat, 255) + "\""@
    }

    /// The elements of the shapes `shapes` in the colours `colors`, one to
    /// the line.
    pub open spec fn spec_element_lines(shapes: Seq<Shape>, colors: Seq<Color>) -> Seq<Seq<char>>
        decreases shapes.len(),
    {
        if shapes.len() == 0 {
            Seq::empty()
        } else {
            Model::spec_element_lines(shapes.drop_last(), colors.drop_last()).push(
                shapes.last().spec_svg(Model::spec_attrs(colors.last())),
            )
        }
    }

    /// The line that opens the vector document, of the output size.
    pub open spec fn spec_opening(&self) -> Seq<char> {
        "<svg "@ + "xmlns=\"http://www.w3.org/2000/svg\" version=\"1.1\" width=\""@ + decimal(
            self.sw as int,
        ) + "\" height=\""@ + decimal(self.sh as int) + "\">"@
    }

    /// The line of the background: a rectangle over all of the output, in
    /// the colour of the background.
    pub open spec fn spec_backdrop(&self) -> Seq<char> {
        "<rect "@ + "x=\"0\" y=\"0\" width=\""@ + decimal(self.sw as int) + "\" height=\""@
            + decimal(self.sh as int) + "\" fill=\"#"@ + hex_byte(self.bg.spec_r()) + hex_byte(
            self.bg.spec_g(),
        ) + hex_byte(self.bg.spec_b()) + "\" />"@
    }

    /// The line that opens the group of the shapes: it scales them as the
    /// output is scaled and moves them to the centres of the pixels.
    pub open spec fn spec_group(&self) -> Seq<char> {
        "<g "@ + "transform=\"scale("@ + ratio(self.out_size as nat, self.bigger as nat)
            + ") translate(0.5 0.5)\">"@
    }

    /// The lines of the vector document: the opening, the background, the
    /// opening of the group, an element for each shape of the history in
    /// its order, and the closing of the group and of the document.
    pub open spec fn spec_lines(&self) -> Seq<Seq<char>> {
        seq![self.spec_opening(), self.spec_backdrop(), self.spec_group()]
            + Model::spec_element_lines(self.shapes@, self.colors@) + seq!["</g>"@, "</svg>"@]
    }

    /// The vector document of the model: its lines, with a line feed
    /// between one and the next.
    pub open spec fn spec_svg(&self) -> Seq<char> {
        joined(self.spec_lines())
    }

    /// The opening line begins with `<svg `, and so not with `<rect `.
    pub proof fn lemma_opening_begins(&self)
        ensures
            begins(self.spec_opening(), "<svg "@),
            !begins(self.spec_opening(), "<rect "@),
    {
        reveal_strlit("<rect ");
        reveal_strlit("<svg ");
        let rest = "xmlns=\"http://www.w3.org/2000/svg\" version=\"1.1\" width=\""@ + decimal(
            self.sw as int,
        ) + "\" height=\""@ + decimal(self.sh as int) + "\">"@;
        assert(self.spec_opening() =~= "<svg "@ + rest);
        lemma_begins_with_front("<svg "@, rest);
        assert(self.spec_opening()[1] == "<svg "@[1]);
        lemma_begins_not(self.spec_opening(), "<rect "@);
    }

    /// The line of the background begins with `<rect `.
    pub proof fn lemma_backdrop_begins(&self)
        ensures
            begins(self.spec_backdrop(), "<rect "@),
    {
        let rest = "x=\"0\" y=\"0\" width=\""@ + decimal(self.sw as int) + "\" height=\""@
            + decimal(self.sh as int) + "\" fill=\"#"@ + hex_byte(self.bg.spec_r()) + hex_byte(
            self.bg.spec_g(),
        ) + hex_byte(self.bg.spec_b()) + "\" />"@;
        assert(self.spec_backdrop() =~= "<rect "@ + rest);
        lemma_begins_with_front("<rect "@, rest);
    }

    /// The line that opens the group begins with `<g `, and so not with
    /// `<rect `.
    pub proof fn lemma_group_begins(&self)
        ensures
            begins(self.spec_group(), "<g "@),
            !begins(self.spec_group(), "<rect "@),
    {
        reveal_strlit("<rect ");
        reveal_strlit("<g ");
        let rest = "transform=\"scale("@ + ratio(self.out_size as nat, self.bigger as nat)
            + ") translate(0.5 0.5)\">"@;
        assert(self.spec_group() =~= "<g "@ + rest);
        lemma_begins_with_front("<g "@, rest);
        assert(self.spec_group()[1] == "<g "@[1]);
        lemma_begins_not(self.spec_group(), "<rect "@);
    }

    /// The vector document has a line for the opening, one for the
    /// background, one that opens the group, one for each shape of the
    /// history in its order, one that closes the group and one that closes
    /// the document. The lines that begin with `<rect ` are that of the
    /// background and those of the rectangles of the history: one more than
    /// there are shapes, where every shape is a rectangle.
    pub proof fn lemma_document_lines(&self)
        requires
            self.shapes@.len() == self.colors@.len(),
        ensures
            self.spec_lines().len() == self.shapes@.len() + 5,
            self.spec_lines()[0] == self.spec_opening(),
            self.spec_lines()[1] == self.spec_backdrop(),
            self.spec_lines()[2] == self.spec_group(),
            forall|i: int|
                0 <= i < self.shapes@.len() ==> #[trigger] self.spec_lines()[3 + i]
                    == self.shapes@[i].spec_svg(Model::spec_attrs(self.colors@[i])),
            self.spec_lines()[self.shapes@.len() as int + 3] == "</g>"@,
            self.spec_lines()[self.shapes@.len() as int + 4] == "</svg>"@,
            count_begins(self.spec_lines(), "<rect "@) == 1 + rectangles(self.shapes@),
            (forall|i: int|
                0 <= i < self.shapes@.len() ==> (#[trigger] self.shapes@[i]).kind()
                    == ShapeType::Rectangle) ==> count_begins(self.spec_lines(), "<rect "@)
                == self.shapes@.len() + 1,
    {
        let p = "<rect "@;
        let (l1, l2, l3) = (self.spec_opening(), self.spec_backdrop(), self.spec_group());
        let elements = Model::spec_element_lines(self.shapes@, self.colors@);
        lemma_element_lines(self.shapes@, self.colors@);
        assert forall|i: int| 0 <= i < self.shapes@.len() implies #[trigger] self.spec_lines()[3
            + i] == self.shapes@[i].spec_svg(Model::spec_attrs(self.colors@[i])) by {
            assert(self.spec_lines()[3 + i] == elements[i]);
        }
        self.lemma_opening_begins();
        self.lemma_backdrop_begins();
        self.lemma_group_begins();
        lemma_closing_begins();
        lemma_count_begins_one(l1, p);
        lemma_count_begins_one(l2, p);
        lemma_count_begins_one(l3, p);
        lemma_count_begins_one("</g>"@, p);
        lemma_count_begins_one("</svg>"@, p);
        lemma_count_begins_concat(seq![l1], seq![l2], p);
        lemma_count_begins_concat(seq![l1] + seq![l2], seq![l3], p);
        lemma_count_begins_concat(seq!["</g>"@], seq!["</svg>"@], p);
        assert(seq![l1] + seq![l2] + seq![l3] =~= seq![l1, l2, l3]);
        assert(seq!["</g>"@] + seq!["</svg>"@] =~= seq!["</g>"@, "</svg>"@]);
        lemma_count_begins_concat(seq![l1, l2, l3], elements, p);
        lemma_count_begins_concat(seq![l1, l2, l3] + elements, seq!["</g>"@, "</svg>"@], p);
        if forall|i: int|
            0 <= i < self.shapes@.len() ==> (#[trigger] self.shapes@[i]).kind()
                == ShapeType::Rectangle {
            lemma_rectangles_all(self.shapes@);
        }
    }

    /// The line that opens the vector document.
    fn opening(&self) -> (line: String)
        requires
            self.wf(),
        ensures
            line@ == self.spec_opening(),
    {
        let mut s: String = String::new();
        s.append("<svg ");
        assert(s@ =~= "<svg "@);
        s.append("xmlns=\"http://www.w3.org/2000/svg\" version=\"1.1\" width=\"");
        push_decimal(&mut s, self.sw as i64);
        s.append("\" height=\"");
        push_decimal(&mut s, self.sh as i64);
        s.append("\">");
        s
    }

    /// The line of the background.
    fn backdrop(&self) -> (line: String)
        requires
            self.wf(),
        ensures
            line@ == self.spec_backdrop(),
    {
        let mut s: String = String::new();
        s.append("<rect ");
        assert(s@ =~= "<rect "@);
        s.append("x=\"0\" y=\"0\" width=\"");
        push_decimal(&mut s, self.sw as i64);
        s.append("\" height=\"");
        push_decimal(&mut s, self.sh as i64);
        s.append("\" fill=\"#");
        push_hex_byte(&mut s, self.bg.r());
        push_hex_byte(&mut s, self.bg.g());
        push_hex_byte(&mut s, self.bg.b());
        s.append("\" />");
        s
    }

    /// The line that opens the group of the shapes.
    fn group(&self) -> (line: String)
        requires
            self.wf(),
        ensures
            line@ == self.spec_group(),
    {
        let mut s: String = String::new();
        s.append("<g ");
        assert(s@ =~= "<g "@);
        s.append("transform=\"scale(");
        push_ratio(&mut s, self.out_size as u64, self.bigger as u64);
        s.append(") translate(0.5 0.5)\">");
        s
    }

    /// The attributes that give an element the colour `c`.
    fn attrs(c: &Color) -> (text: String)
        ensures
            text@ == Model::spec_attrs(*c),
    {
        let mut attrs: String = String::new();
        attrs.append("fill=\"#");
        assert(attrs@ =~= "fill=\"#"@);
        push_hex_byte(&mut attrs, c.r());
        push_hex_byte(&mut attrs, c.g());
        push_hex_byte(&mut attrs, c.b());
        attrs.append("\" fill-opacity=\"");
        push_ratio(&mut attrs, c.a() as u64, 255);
        attrs.append("\"");
        attrs
    }

    /// The vector document of the model.
    #[verifier::rlimit(40)]
    pub fn svg(&self) -> (text: String)
        requires
            self.wf(),
        ensures
            text@ == self.spec_svg(),
    {
        let mut s: String = self.opening();
        let ghost mut lines: Seq<Seq<char>> = seq![self.spec_opening()];
        add_line(&mut s, &self.backdrop(), Ghost(lines));
        proof {
            lines = lines.push(self.spec_backdrop());
        }
        add_line(&mut s, &self.group(), Ghost(lines));
        proof {
            lines = lines.push(self.spec_group());
            assert(lines =~= seq![self.spec_opening(), self.spec_backdrop(), self.spec_group()]
                + Model::spec_element_lines(self.shapes@.take(0), self.colors@.take(0)));
        }
        let ghost head = seq![self.spec_opening(), self.spec_backdrop(), self.spec_group()];
        let mut i: usize = 0;
        while i < self.shapes.len()
            invariant
                i <= self.shapes.len(),
                self.shapes.len() == self.colors.len(),
                head == seq![self.spec_opening(), self.spec_backdrop(), self.spec_group()],
                lines == head + Model::spec_element_lines(
                    self.shapes@.take(i as int),
                    self.colors@.take(i as int),
                ),
                s@ == joined(lines),
            decreases self.shapes.len() - i,
        {
            let attrs: String = Model::attrs(&self.colors[i]);
            let element: String = self.shapes[i].svg(attrs.as_str());
            add_line(&mut s, &element, Ghost(lines));
            proof {
                assert(self.shapes@.take(i + 1).drop_last() =~= self.shapes@.take(i as int));
                assert(self.colors@.take(i + 1).drop_last() =~= self.colors@.take(i as int));
                assert(self.shapes@.take(i + 1).last() == self.shapes[i as int]);
                assert(self.colors@.take(i + 1).last() == self.colors[i as int]);
                assert(lines.push(element@) =~= head + Model::spec_element_lines(
                    self.shapes@.take(i + 1),
                    self.colors@.take(i + 1),
                ));
                lines = lines.push(element@);
            }
            i += 1;
        }
        proof {
            assert(self.shapes@.take(self.shapes.len() as int) =~= self.shapes@);
            assert(self.colors@.take(self.colors.len() as int) =~= self.colors@);
        }
        add_line(&mut s, &String::from_str("</g>"), Ghost(lines));
        add_line(&mut s, &String::from_str("</svg>"), Ghost(lines.push("</g>"@)));
        proof {
            assert(lines.push("</g>"@).push("</svg>"@) =~= self.spec_lines());
        }
        s
    }

    /// The model has the canvas, the score and the history of `other`.
    pub open spec fn same_canvas(&self, other: &Model) -> bool {
        &&& self.current == other.current
        &&& self.score == other.score
        &&& self.shapes == other.shapes
        &&& self.colors == other.colors
        &&& self.scanlines == other.scanlines
    }

    /// The model has the target, the sizes and the background of `other`.
    pub open spec fn same_task(&self, other: &Model) -> bool {
        &&& self.target == other.target
        &&& self.w == other.w
        &&& self.h == other.h
        &&& self.sw == other.sw
        &&& self.sh == other.sh
        &&& self.out_size == other.out_size
        &&& self.bigger == other.bigger
        &&& self.bg == other.bg
    }
}

/// The number of the shapes `shapes` that are rectangles.
pub open spec fn rectangles(shapes: Seq<Shape>) -> nat
    decreases shapes.len(),
{
    if shapes.len() == 0 {
        0
    } else {
        rectangles(shapes.drop_last()) + (if shapes.last().kind() == ShapeType::Rectangle {
            1nat
        } else {
            0nat
        })
    }
}

/// Where every shape is a rectangle, the rectangles are as many as the
/// shapes.
pub proof fn lemma_rectangles_all(shapes: Seq<Shape>)
    requires
        forall|i: int| 0 <= i < shapes.len() ==> (#[trigger] shapes[i]).kind() == ShapeType::Rectangle,
    ensures
        rectangles(shapes) == shapes.len(),
    decreases shapes.len(),
{
    if shapes.len() > 0 {
        assert forall|i: int| 0 <= i < shapes.drop_last().len() implies (
        #[trigger] shapes.drop_last()[i]).kind() == ShapeType::Rectangle by {
            assert(shapes.drop_last()[i] == shapes[i]);
        }
        lemma_rectangles_all(shapes.drop_last());
        assert(shapes.last() == shapes[shapes.len() - 1]);
    }
}

/// The element of a shape begins with `<rect ` where the shape is a
/// rectangle, and there only.
pub proof fn lemma_element_begins(shape: Shape, attrs: Seq<char>)
    ensures
        begins(shape.spec_svg(attrs), "<rect "@) == (shape.kind() == ShapeType::Rectangle),
{
    reveal_strlit("<rect ");
    let text = shape.spec_svg(attrs);
    match shape {
        Shape::Triangle { x1, y1, x2, y2, x3, y3 } => {
            reveal_strlit("<polygon ");
            assert(text[1] == "<polygon "@[1]);
            lemma_begins_not(text, "<rect "@);
        },
        Shape::Ellipse { x, y, rx, ry } => {
            reveal_strlit("<ellipse ");
            assert(text[1] == "<ellipse "@[1]);
            lemma_begins_not(text, "<rect "@);
        },
        Shape::Rectangle { x1, y1, x2, y2 } => {
            let rest = attrs + " x=\""@ + decimal(x1 as int) + "\" y=\""@ + decimal(y1 as int)
                + "\" width=\""@ + decimal(x2 - x1 + 1) + "\" height=\""@ + decimal(y2 - y1 + 1)
                + "\" />"@;
            assert(text =~= "<rect "@ + rest);
            lemma_begins_with_front("<rect "@, rest);
        },
        Shape::RotatedRectangle { x, y, sx, sy, angle } => {
            reveal_strlit("<g transform=\"translate(");
            assert(text[1] == "<g transform=\"translate("@[1]);
            lemma_begins_not(text, "<rect "@);
        },
    }
}

/// The elements of the shapes stand one to the line, in the order of the
/// shapes, and as many of the lines begin with `<rect ` as there are
/// rectangles among the shapes.
pub proof fn lemma_element_lines(shapes: Seq<Shape>, colors: Seq<Color>)
    requires
        shapes.len() == colors.len(),
    ensures
        Model::spec_element_lines(shapes, colors).len() == shapes.len(),
        forall|i: int|
            0 <= i < shapes.len() ==> #[trigger] Model::spec_element_lines(shapes, colors)[i]
                == shapes[i].spec_svg(Model::spec_attrs(colors[i])),
        count_begins(Model::spec_element_lines(shapes, colors), "<rect "@) == rectangles(shapes),
    decreases shapes.len(),
{
    if shapes.len() > 0 {
        lemma_element_lines(shapes.drop_last(), colors.drop_last());
        lemma_element_begins(shapes.last(), Model::spec_attrs(colors.last()));
        let lines = Model::spec_element_lines(shapes, colors);
        let init = Model::spec_element_lines(shapes.drop_last(), colors.drop_last());
        assert(lines.drop_last() =~= init);
        assert forall|i: int| 0 <= i < shapes.len() implies #[trigger] lines[i]
            == shapes[i].spec_svg(Model::spec_attrs(colors[i])) by {
            if i < shapes.len() - 1 {
                assert(lines[i] == init[i]);
                assert(shapes.drop_last()[i] == shapes[i]);
                assert(colors.drop_last()[i] == colors[i]);
            }
        }
    }
}

/// The lines that close the group and the document do not begin with
/// `<rect `.
pub proof fn lemma_closing_begins()
    ensures
        !begins("</g>"@, "<rect "@),
        !begins("</svg>"@, "<rect "@),
{
    reveal_strlit("<rect ");
    reveal_strlit("</g>");
    reveal_strlit("</svg>");
    lemma_begins_not("</g>"@, "<rect "@);
    lemma_begins_not("</svg>"@, "<rect "@);
}

/// Adds the line `line` to the text `text`, which holds the lines `lines`
/// with a line feed between one and the next.
fn add_line(text: &mut String, line: &String, Ghost(lines): Ghost<Seq<Seq<char>>>)
    requires
        lines.len() > 0,
        old(text)@ == joined(lines),
    ensures
        final(text)@ == joined(lines.push(line@)),
{
    text.append("\n");
    text.append(line.as_str());
    proof {
        assert(lines.push(line@).drop_last() =~= lines);
    }
}

/// The bytes of a canvas of `w` by `h` pixels on which, over the
/// background `bg`, the shapes `shapes` are stamped in turn, each scaled by
/// `num / den` and in its colour of `colors`.
#[verifier::rlimit(40)]
pub fn replay(
    bg: &Color,
    w: usize,
    h: usize,
    shapes: &Vec<Shape>,
    colors: &Vec<Color>,
    num: usize,
    den: usize,
) -> (img: Vec<u8>)
    requires
        w * h <= MAX_AREA,
        h < usize::MAX,
        den > 0,
        shapes.len() == colors.len(),
    ensures
        img@ == replayed(*bg, w, h, shapes@, colors@, num, den),
{
    let canvas: Pixels = Pixels::new(w, h);
    let mut img: Vec<u8> = canvas.buf;
    erase(&mut img, bg);
    let mut buf: Vec<Scanline> = Scanline::buffer(h);
    let mut i: usize = 0;
    proof {
        assert(shapes@.take(0) =~= Seq::<Shape>::empty());
        assert(img@ == replayed(*bg, w, h, shapes@.take(0), colors@.take(0), num, den));
    }
    while i < shapes.len()
        invariant
            i <= shapes.len(),
            shapes.len() == colors.len(),
            den > 0,
            buf.len() > h,
            img.len() == 4 * (w * h),
            img@ == replayed(*bg, w, h, shapes@.take(i as int), colors@.take(i as int), num, den),
        decreases shapes.len() - i,
    {
        let ghost sofar = img@;
        let shape: Shape = shapes[i].scaled(num, den);
        let n: usize = shape.rasterize(w, h, &mut buf);
        let lines: &[Scanline] = &buf[0..n];
        assert(lines@ == shape.spans(w, h));
        draw_lines(&mut img, w, h, &colors[i], lines);
        proof {
            assert(shapes@.take(i + 1).drop_last() =~= shapes@.take(i as int));
            assert(colors@.take(i + 1).drop_last() =~= colors@.take(i as int));
            assert(shapes@.take(i + 1).last() == shapes[i as int]);
            assert(colors@.take(i + 1).last() == colors[i as int]);
            assert(img@ == drawn(sofar, w as int, colors[i as int], shape.spans(w, h)));
        }
        i += 1;
    }
    proof {
        assert(shapes@.take(shapes.len() as int) =~= shapes@);
        assert(colors@.take(colors.len() as int) =~= colors@);
    }
    img
}

/// The length `a` scaled by `num / den` and rounded up.
pub fn scale_up(a: usize, num: usize, den: usize) -> (r: usize)
    requires
        a <= MAX_DIM,
        num <= MAX_DIM,
        0 < den <= MAX_DIM,
        a <= den,
    ensures
        r == scaled_up(a as int, num as int, den as int),
        r <= num,
{
    let wide: u64 = a as u64;
    let top: u64 = num as u64;
    let d: u64 = den as u64;
    assert(wide * top <= 0x1000_0000 * 0x1000_0000) by (nonlinear_arith)
        requires
            0 <= wide <= 0x1000_0000,
            0 <= top <= 0x1000_0000,
    ;
    let sum: u64 = wide * top + d - 1;
    let q: u64 = sum / d;
    assert(q <= top) by (nonlinear_arith)
        requires
            q == sum / d,
            sum == wide * top + d - 1,
            0 <= wide <= d,
            0 < d,
            0 <= top,
    ;
    q as usize
}

} // verus!
