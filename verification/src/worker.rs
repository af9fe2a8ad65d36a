//! One searcher: a scratch canvas, a buffer of spans and a source of
//! chance, with which it finds the energy of a candidate and looks for a
//! candidate of low energy.

use vstd::prelude::*;
use crate::canvas::{Pixels, MAX_AREA, best_color, drawn, partial_err, sq_err};
use crate::metric::{lemma_partial_err_exact, lemma_scratch_err};
use crate::scanline::{Scanline, lemma_distinct_rows_disjoint};
use crate::shape::{Shape, ShapeType, MAX_DIM};
use crate::sampler::Sampler;
use crate::state::{State, is_first_lowest};

verus! {

/// The bytes of the canvas `current` of `w` by `h` pixels after `shape`
/// was stamped on it at `alpha`, in the colour that brings it closest to
/// `target`.
pub open spec fn stamped(
    target: Seq<u8>,
    current: Seq<u8>,
    w: usize,
    h: usize,
    shape: Shape,
    alpha: u8,
) -> Seq<u8> {
    drawn(
        current,
        w as int,
        best_color(target, current, w as int, shape.spans(w, h), alpha),
        shape.spans(w, h),
    )
}

/// The energy of `shape` at `alpha`: the score of the canvas `current`
/// with the shape stamped on it, found from the score `prior` of `current`
/// by the change on the spans of the shape.
pub open spec fn energy_of(
    target: Seq<u8>,
    current: Seq<u8>,
    w: usize,
    h: usize,
    shape: Shape,
    alpha: u8,
    prior: u64,
) -> int {
    partial_err(
        target,
        current,
        stamped(target, current, w, h, shape, alpha),
        w as int,
        prior as int,
        shape.spans(w, h),
    )
}

/// Where `prior` is the squared distance of `current` from `target`, the
/// energy of a shape is the squared distance from `target` of the canvas
/// with the shape stamped on it.
pub proof fn lemma_energy_is_distance(
    target: Seq<u8>,
    current: Seq<u8>,
    w: usize,
    h: usize,
    shape: Shape,
    alpha: u8,
    prior: u64,
)
    requires
        w * h <= MAX_AREA,
        target.len() == 4 * (w * h),
        current.len() == 4 * (w * h),
        prior == sq_err(target, current),
    ensures
        energy_of(target, current, w, h, shape, alpha, prior) == sq_err(
            target,
            stamped(target, current, w, h, shape, alpha),
        ),
{
    let lines = shape.spans(w, h);
    shape.lemma_spans_on_canvas(w, h);
    lemma_distinct_rows_disjoint(lines);
    lemma_partial_err_exact(
        target,
        current,
        w,
        h,
        best_color(target, current, w as int, lines, alpha),
        lines,
    );
}

/// The number of undone moves at which the climb of a run ends.
pub const CLIMB_AGE: i32 = 100;

/// What a search works on: the target, the canvas as it is, its size, and
/// its score.
pub struct Task {
    pub target: Seq<u8>,
    pub current: Seq<u8>,
    pub w: usize,
    pub h: usize,
    pub score: u64,
}

/// The sum of the costs `costs`.
pub open spec fn total(costs: Seq<int>) -> int
    decreases costs.len(),
{
    if costs.len() == 0 {
        0
    } else {
        total(costs.drop_last()) + costs.last()
    }
}

/// One more cost adds to the sum.
pub proof fn lemma_total_push(costs: Seq<int>, c: int)
    ensures
        total(costs.push(c)) == total(costs) + c,
{
    assert(costs.push(c).drop_last() =~= costs);
}

impl Task {
    /// The energy of `shape` at `alpha` on the canvas of the task.
    pub open spec fn energy(self, shape: Shape, alpha: u8) -> int {
        energy_of(self.target, self.current, self.w, self.h, shape, alpha, self.score)
    }

    /// `c` is a state of the family `t` at the alpha `a` that the search
    /// keeps and that lies on the canvas as its family does, together with
    /// its energy.
    pub open spec fn tried(self, t: ShapeType, a: u8, c: (State, u64)) -> bool {
        &&& c.0.shape.kind() == t
        &&& c.0.alpha == a
        &&& c.0.shape.settled()
        &&& c.0.shape.fits(self.w, self.h)
        &&& c.1 == self.energy(c.0.shape, a)
    }

    /// Where a climb from `start` stands after the moves `trace`.
    pub open spec fn stands(self, start: State, trace: Seq<(Shape, u64)>) -> (Shape, int, int) {
        climbed(start.shape, self.energy(start.shape, start.alpha), trace)
    }

    /// The moves `trace`, at the costs `costs`, are moves of a climb from
    /// `start` that counts up to `max_age` undone moves and has `budget`
    /// perturbations to spend: each is what a mutation at its cost leaves
    /// of the best shape so far, comes with its energy, costs one
    /// perturbation at least, and is made within the budget and while fewer
    /// than `max_age` moves were undone.
    #[verifier::opaque]
    pub open spec fn steps(
        self,
        start: State,
        max_age: int,
        budget: int,
        trace: Seq<(Shape, u64)>,
        costs: Seq<int>,
    ) -> bool {
        &&& costs.len() == trace.len()
        &&& forall|i: int|
            0 <= i < trace.len() ==> {
                &&& (#[trigger] trace[i]).1 == self.energy(trace[i].0, start.alpha)
                &&& costs[i] >= 1
                &&& total(costs.take(i + 1)) <= budget
                &&& self.stands(start, trace.take(i)).0.mutated_to(
                    trace[i].0,
                    self.w,
                    self.h,
                    costs[i],
                    total(costs.take(i + 1)) == budget,
                )
                &&& self.stands(start, trace.take(i)).2 < max_age
            }
    }

    /// A climb begins with no move made.
    pub proof fn lemma_steps_begin(self, start: State, max_age: int, budget: int)
        ensures
            self.steps(start, max_age, budget, Seq::empty(), Seq::empty()),
            total(Seq::<int>::empty()) == 0,
    {
        reveal(Task::steps);
    }

    /// One more move leads a climb on.
    pub proof fn lemma_steps_on(
        self,
        start: State,
        max_age: int,
        budget: int,
        trace: Seq<(Shape, u64)>,
        costs: Seq<int>,
        tried: Shape,
        energy: u64,
        cost: int,
    )
        requires
            self.steps(start, max_age, budget, trace, costs),
            self.stands(start, trace).2 < max_age,
            cost >= 1,
            total(costs) + cost <= budget,
            self.stands(start, trace).0.mutated_to(
                tried,
                self.w,
                self.h,
                cost,
                total(costs) + cost == budget,
            ),
            energy == self.energy(tried, start.alpha),
        ensures
            self.steps(start, max_age, budget, trace.push((tried, energy)), costs.push(cost)),
            total(costs.push(cost)) == total(costs) + cost,
    {
        reveal(Task::steps);
        let longer = trace.push((tried, energy));
        let more = costs.push(cost);
        lemma_total_push(costs, cost);
        assert(longer.take(trace.len() as int) =~= trace);
        assert(more.take(more.len() as int) =~= more);
        assert forall|i: int| 0 <= i < longer.len() implies {
            &&& (#[trigger] longer[i]).1 == self.energy(longer[i].0, start.alpha)
            &&& more[i] >= 1
            &&& total(more.take(i + 1)) <= budget
            &&& self.stands(start, longer.take(i)).0.mutated_to(
                longer[i].0,
                self.w,
                self.h,
                more[i],
                total(more.take(i + 1)) == budget,
            )
            &&& self.stands(start, longer.take(i)).2 < max_age
        } by {
            if i < trace.len() {
                assert(longer.take(i) =~= trace.take(i));
                assert(more.take(i + 1) =~= costs.take(i + 1));
                assert(longer[i] == trace[i]);
            }
        }
    }

    /// `end` is where a climb from `start` ends that counts up to `max_age`
    /// undone moves and begins with `budget` perturbations to spend, of
    /// which `left` are left: there are moves of such a climb, at costs that
    /// add up to what was spent, after which the climb stands at the shape
    /// and the energy of `end`; and by then `max_age` moves were undone, or
    /// nothing is left.
    #[verifier::opaque]
    pub open spec fn climbs(
        self,
        start: State,
        max_age: int,
        end: State,
        budget: int,
        left: int,
    ) -> bool {
        exists|trace: Seq<(Shape, u64)>, costs: Seq<int>|
            {
                &&& #[trigger] self.steps(start, max_age, budget, trace, costs)
                &&& self.stands(start, trace).0 == end.shape
                &&& end.score == Some(self.stands(start, trace).1 as u64)
                &&& end.alpha == start.alpha
                &&& left == budget - total(costs)
                &&& self.stands(start, trace).2 >= max_age || left == 0
            }
    }

    /// The states `cands`, drawn at the costs `costs`, are random states
    /// of the family `t` at the alpha `a`, drawn one after the other with
    /// `budget` perturbations to spend: each is what `random` may give at
    /// its cost, within the budget, and comes with its energy.
    #[verifier::opaque]
    pub open spec fn draws(
        self,
        t: ShapeType,
        a: u8,
        budget: int,
        cands: Seq<(State, u64)>,
        costs: Seq<int>,
    ) -> bool {
        &&& costs.len() == cands.len()
        &&& forall|i: int|
            0 <= i < cands.len() ==> {
                &&& self.tried(t, a, #[trigger] cands[i])
                &&& costs[i] >= 0
                &&& total(costs.take(i + 1)) <= budget
                &&& cands[i].0.shape.drawn_for(
                    t,
                    self.w,
                    self.h,
                    costs[i],
                    total(costs.take(i + 1)) == budget,
                )
            }
    }

    /// The drawing begins with no state drawn.
    pub proof fn lemma_draws_begin(self, t: ShapeType, a: u8, budget: int)
        ensures
            self.draws(t, a, budget, Seq::empty(), Seq::empty()),
            total(Seq::<int>::empty()) == 0,
    {
        reveal(Task::draws);
    }

    /// One more random state adds to those drawn.
    pub proof fn lemma_draws_on(
        self,
        t: ShapeType,
        a: u8,
        budget: int,
        cands: Seq<(State, u64)>,
        costs: Seq<int>,
        c: (State, u64),
        cost: int,
    )
        requires
            self.draws(t, a, budget, cands, costs),
            self.tried(t, a, c),
            cost >= 0,
            total(costs) + cost <= budget,
            c.0.shape.drawn_for(t, self.w, self.h, cost, total(costs) + cost == budget),
        ensures
            self.draws(t, a, budget, cands.push(c), costs.push(cost)),
            total(costs.push(cost)) == total(costs) + cost,
    {
        reveal(Task::draws);
        let longer = cands.push(c);
        let more = costs.push(cost);
        lemma_total_push(costs, cost);
        assert(more.take(more.len() as int) =~= more);
        assert forall|i: int| 0 <= i < longer.len() implies {
            &&& self.tried(t, a, #[trigger] longer[i])
            &&& more[i] >= 0
            &&& total(more.take(i + 1)) <= budget
            &&& longer[i].0.shape.drawn_for(
                t,
                self.w,
                self.h,
                more[i],
                total(more.take(i + 1)) == budget,
            )
        } by {
            if i < cands.len() {
                assert(more.take(i + 1) =~= costs.take(i + 1));
                assert(longer[i] == cands[i]);
            }
        }
    }

    /// `best` is the first of `n` random states of the family `t` at the
    /// alpha `a` that has the lowest energy of them, and holds that energy;
    /// the states were drawn with `budget` perturbations to spend, of which
    /// `left` are left.
    #[verifier::opaque]
    pub open spec fn draws_best(
        self,
        t: ShapeType,
        a: u8,
        n: int,
        best: State,
        budget: int,
        left: int,
    ) -> bool {
        exists|cands: Seq<(State, u64)>, costs: Seq<int>|
            {
                &&& #[trigger] self.draws(t, a, budget, cands, costs)
                &&& cands.len() == n
                &&& best_among(cands, best)
                &&& left == budget - total(costs)
            }
    }

    /// `end` is where one run of the search ends, with its energy: the
    /// best of `n` random states of the family `t` at the alpha `a`, climbed
    /// from until `CLIMB_AGE` moves were undone. The run begins with
    /// `budget` perturbations to spend, of which `left` are left.
    #[verifier::opaque]
    pub open spec fn runs(
        self,
        t: ShapeType,
        a: u8,
        n: int,
        end: (State, u64),
        budget: int,
        left: int,
    ) -> bool {
        &&& end.0.score == Some(end.1)
        &&& exists|start: State, mid: int|
            #[trigger] self.draws_best(t, a, n, start, budget, mid) && self.climbs(
                start,
                CLIMB_AGE as int,
                end.0,
                mid,
                left,
            )
    }

    /// A climb from the best of `n` random states is a run.
    pub proof fn lemma_run_made(
        self,
        t: ShapeType,
        a: u8,
        n: int,
        start: State,
        end: (State, u64),
        budget: int,
        mid: int,
        left: int,
    )
        requires
            self.draws_best(t, a, n, start, budget, mid),
            self.climbs(start, CLIMB_AGE as int, end.0, mid, left),
            end.0.score == Some(end.1),
        ensures
            self.runs(t, a, n, end, budget, left),
    {
        reveal(Task::runs);
    }

    /// The runs that end at `ends` follow one another: the first begins
    /// with `budget` perturbations to spend, and `marks` holds what is left
    /// before each run and after the last.
    #[verifier::opaque]
    pub open spec fn chain(
        self,
        t: ShapeType,
        a: u8,
        n: int,
        budget: int,
        ends: Seq<(State, u64)>,
        marks: Seq<int>,
    ) -> bool {
        &&& marks.len() == ends.len() + 1
        &&& marks[0] == budget
        &&& forall|i: int|
            0 <= i < ends.len() ==> self.runs(t, a, n, #[trigger] ends[i], marks[i], marks[i + 1])
    }

    /// The runs begin with no run made.
    pub proof fn lemma_chain_begin(self, t: ShapeType, a: u8, n: int, budget: int)
        ensures
            self.chain(t, a, n, budget, Seq::empty(), seq![budget]),
    {
        reveal(Task::chain);
    }

    /// One more run adds to those made.
    pub proof fn lemma_chain_on(
        self,
        t: ShapeType,
        a: u8,
        n: int,
        budget: int,
        ends: Seq<(State, u64)>,
        marks: Seq<int>,
        end: (State, u64),
        left: int,
    )
        requires
            self.chain(t, a, n, budget, ends, marks),
            marks.len() == ends.len() + 1,
            self.runs(t, a, n, end, marks.last(), left),
        ensures
            self.chain(t, a, n, budget, ends.push(end), marks.push(left)),
    {
        reveal(Task::chain);
        let longer = ends.push(end);
        let more = marks.push(left);
        assert forall|i: int| 0 <= i < longer.len() implies self.runs(
            t,
            a,
            n,
            #[trigger] longer[i],
            more[i],
            more[i + 1],
        ) by {
            if i < ends.len() {
                assert(longer[i] == ends[i]);
            }
        }
    }

    /// `best` is what `m` runs of the search find, one after the other:
    /// the first of the ends of the runs that has the lowest energy. The
    /// runs begin with `budget` perturbations to spend, of which `left` are
    /// left.
    #[verifier::opaque]
    pub open spec fn finds(
        self,
        t: ShapeType,
        a: u8,
        n: int,
        m: int,
        best: State,
        budget: int,
        left: int,
    ) -> bool {
        exists|ends: Seq<(State, u64)>, marks: Seq<int>|
            {
                &&& #[trigger] self.chain(t, a, n, budget, ends, marks)
                &&& ends.len() == m
                &&& marks[m] == left
                &&& best_among(ends, best)
            }
    }
}

/// Where a climb stands after the moves `trace`, each the shape that was
/// tried and its energy, having begun at the shape `best` of the energy
/// `energy`: at the best shape so far, with its energy, and with the number
/// of moves that were undone. A move to a higher energy than the best so
/// far is undone and counted; any other move becomes the best so far.
pub open spec fn climbed(best: Shape, energy: int, trace: Seq<(Shape, u64)>) -> (Shape, int, int)
    decreases trace.len(),
{
    if trace.len() == 0 {
        (best, energy, 0)
    } else {
        let before = climbed(best, energy, trace.drop_last());
        if trace.last().1 <= before.1 {
            (trace.last().0, trace.last().1 as int, before.2)
        } else {
            (before.0, before.1, before.2 + 1)
        }
    }
}

/// `best` is the first of the states of `cands` that has the lowest
/// energy, and holds that energy.
pub open spec fn best_among(cands: Seq<(State, u64)>, best: State) -> bool {
    exists|k: int|
        {
            &&& #[trigger] is_first_lowest(cands, k)
            &&& best.shape == cands[k].0.shape
            &&& best.alpha == cands[k].0.alpha
            &&& best.score == Some(cands[k].1)
        }
}

/// Whether a climb keeps a move to the energy `energy` when the best
/// energy so far is `best`: it does unless the move leads higher.
pub fn keeps(energy: u64, best: u64) -> (keep: bool)
    ensures
        keep == (energy <= best),
{
    energy <= best
}

/// A searcher for a canvas of `w` by `h` pixels.
pub struct Worker {
    pub w: usize,
    pub h: usize,
    /// The scratch canvas on which candidates are stamped.
    pub buffer: Pixels,
    pub rng: Sampler,
    pub scanlines: Vec<Scanline>,
    /// The score of the current canvas, as of the start of the step.
    pub score: u64,
}

impl Worker {
    /// The scratch canvas has the size of the worker, the buffer of spans
    /// has more entries than the canvas has rows, and the canvas has a
    /// pixel.
    pub open spec fn wf(&self) -> bool {
        &&& self.buffer.wf()
        &&& self.buffer.w == self.w
        &&& self.buffer.h == self.h
        &&& self.scanlines.len() > self.h
        &&& 1 <= self.w <= MAX_DIM
        &&& 1 <= self.h <= MAX_DIM
    }

    /// `target` and `current` are canvases of the worker's size.
    pub open spec fn serves(&self, target: &Pixels, current: &Pixels) -> bool {
        &&& target.wf()
        &&& current.wf()
        &&& target.w == self.w
        &&& target.h == self.h
        &&& current.w == self.w
        &&& current.h == self.h
    }

    /// The task of the worker on the canvases `target` and `current`.
    pub open spec fn task(&self, target: &Pixels, current: &Pixels) -> Task {
        Task {
            target: target.buf@,
            current: current.buf@,
            w: self.w,
            h: self.h,
            score: self.score,
        }
    }

    /// The worker has the size and the score of `other`.
    pub open spec fn same_task(&self, other: &Worker) -> bool {
        self.w == other.w && self.h == other.h && self.score == other.score
    }

    /// A worker for a canvas of `w` by `h` pixels that draws from `rng`.
    /// Its score is zero until `init` sets it.
    pub fn new(w: usize, h: usize, rng: Sampler) -> (worker: Worker)
        requires
            1 <= w,
            1 <= h,
            w * h <= MAX_AREA,
        ensures
            worker.wf(),
            worker.w == w,
            worker.h == h,
            worker.score == 0,
            worker.rng == rng,
            worker.buffer.buf@ == Seq::new((4 * (w * h)) as nat, |k: int| 0u8),
            worker.scanlines@ == Seq::new((h + 1) as nat, |i: int| Scanline { y: 0, x1: 0, x2: 0 }),
    {
        assert(w <= MAX_AREA && h <= MAX_AREA) by (nonlinear_arith)
            requires
                w * h <= MAX_AREA,
                w >= 1,
                h >= 1,
        ;
        let buffer: Pixels = Pixels::new(w, h);
        let scanlines: Vec<Scanline> = Scanline::buffer(h);
        Worker { w, h, buffer, rng, scanlines, score: 0 }
    }

    /// Sets the score of the current canvas.
    pub fn init(&mut self, score: u64)
        ensures
            *final(self) == (Worker { score, ..*old(self) }),
    {
        self.score = score;
    }

    /// The energy of `shape` at `alpha`: the shape is rasterized, its best
    /// colour is computed, its spans are copied from `current` to the
    /// scratch canvas and the colour is composited over them there, and the
    /// score is found from the change on the spans.
    pub fn energy(&mut self, target: &Pixels, current: &Pixels, shape: &Shape, alpha: u8) -> (e:
        u64)
        requires
            old(self).wf(),
            old(self).serves(target, current),
            alpha > 0,
        ensures
            e == energy_of(
                target.buf@,
                current.buf@,
                old(self).w,
                old(self).h,
                *shape,
                alpha,
                old(self).score,
            ),
            final(self).wf(),
            final(self).same_task(old(self)),
            final(self).rng == old(self).rng,
    {
        let ghost scratch = self.buffer.buf@;
        let n: usize = shape.rasterize(self.w, self.h, &mut self.scanlines);
        let lines: &[Scanline] = &self.scanlines[0..n];
        assert(lines@ == shape.spans(self.w, self.h));
        let color = current.compute_color(target, lines, alpha);
        self.buffer.copy_lines(current, lines);
        self.buffer.draw_lines(&color, lines);
        proof {
            lemma_distinct_rows_disjoint(lines@);
            lemma_scratch_err(
                target.buf@,
                current.buf@,
                scratch,
                self.w,
                self.h,
                color,
                lines@,
            );
        }
        Pixels::difference_partial(target, current, &self.buffer, self.score, lines)
    }

    /// The best of `m` runs, each of which takes the best of `n` random
    /// states and climbs from it until `CLIMB_AGE` moves were undone: the
    /// first of the ends of the runs that has the lowest energy. One run is
    /// made where `m` is zero.
    #[verifier::rlimit(40)]
    pub fn best_hill_climb_state(
        &mut self,
        target: &Pixels,
        current: &Pixels,
        t: ShapeType,
        a: u8,
        n: u32,
        m: u8,
    ) -> (best: State)
        requires
            old(self).wf(),
            old(self).serves(target, current),
            a > 0,
        ensures
            old(self).task(target, current).finds(
                t,
                a,
                if n == 0 { 1 } else { n as int },
                if m == 0 { 1 } else { m as int },
                best,
                old(self).rng.budget() as int,
                final(self).rng.budget() as int,
            ),
            best.shape.kind() == t,
            best.alpha == a,
            best.score.is_some(),
            best.sound(final(self), target, current),
            best.shape.canonical(),
            best.shape.settled(),
            t != ShapeType::RotatedRectangle || (old(self).w >= 2 && old(self).h >= 2)
                ==> best.shape.fits(old(self).w, old(self).h),
            final(self).rng.budget() <= old(self).rng.budget(),
            final(self).wf(),
            final(self).same_task(old(self)),
    {
        let ghost task = self.task(target, current);
        let ghost draws = if n == 0 { 1 } else { n as int };
        let ghost budget = self.rng.budget() as int;
        let mut state: State = self.best_random_state(target, current, t, a, n);
        let ghost start = state;
        let ghost mid = self.rng.budget() as int;
        self.hill_climb(target, current, &mut state, CLIMB_AGE);
        let mut best_state: State = state;
        let mut best_energy: u64 = best_state.energy(self, target, current);
        let ghost mut ends: Seq<(State, u64)> = Seq::empty();
        let ghost mut marks: Seq<int> = seq![budget];
        let ghost mut place: int = 0;
        proof {
            task.lemma_run_made(
                t,
                a,
                draws,
                start,
                (best_state, best_energy),
                budget,
                mid,
                self.rng.budget() as int,
            );
            task.lemma_chain_begin(t, a, draws, budget);
            task.lemma_chain_on(
                t,
                a,
                draws,
                budget,
                ends,
                marks,
                (best_state, best_energy),
                self.rng.budget() as int,
            );
            ends = ends.push((best_state, best_energy));
            marks = marks.push(self.rng.budget() as int);
        }
        let mut i: u8 = 1;
        while i < m
            invariant
                1 <= i,
                i <= m || (m == 0 && i == 1),
                a > 0,
                self.wf(),
                self.serves(target, current),
                self.same_task(old(self)),
                task == old(self).task(target, current),
                draws == (if n == 0 { 1 } else { n as int }),
                budget == old(self).rng.budget(),
                self.rng.budget() <= old(self).rng.budget(),
                best_state.shape.kind() == t,
                best_state.alpha == a,
                best_state.score == Some(best_energy),
                best_state.sound(self, target, current),
                best_state.shape.canonical(),
                best_state.shape.settled(),
                t != ShapeType::RotatedRectangle || (old(self).w >= 2 && old(self).h >= 2)
                    ==> best_state.shape.fits(old(self).w, old(self).h),
                ends.len() == i,
                marks.len() == i + 1,
                task.chain(t, a, draws, budget, ends, marks),
                marks.last() == self.rng.budget(),
                is_first_lowest(ends, place),
                best_state.shape == ends[place].0.shape,
                best_state.alpha == ends[place].0.alpha,
                best_energy == ends[place].1,
            decreases m - i,
        {
            let ghost had = self.rng.budget() as int;
            state = self.best_random_state(target, current, t, a, n);
            let ghost from = state;
            let ghost between = self.rng.budget() as int;
            self.hill_climb(target, current, &mut state, CLIMB_AGE);
            let energy: u64 = state.energy(self, target, current);
            proof {
                task.lemma_run_made(
                    t,
                    a,
                    draws,
                    from,
                    (state, energy),
                    had,
                    between,
                    self.rng.budget() as int,
                );
                task.lemma_chain_on(
                    t,
                    a,
                    draws,
                    budget,
                    ends,
                    marks,
                    (state, energy),
                    self.rng.budget() as int,
                );
                let longer = ends.push((state, energy));
                if energy < best_energy {
                    assert(is_first_lowest(longer, i as int));
                    place = i as int;
                } else {
                    assert(is_first_lowest(longer, place));
                }
                ends = longer;
                marks = marks.push(self.rng.budget() as int);
            }
            if energy < best_energy {
                best_energy = energy;
                best_state.copy_from(&state);
            }
            i += 1;
        }
        proof {
            reveal(Task::finds);
            assert(best_among(ends, best_state));
        }
        best_state
    }

    /// Climbs from `state`: the state is moved again and again; a move to
    /// a higher energy than the best so far is undone and counted, any
    /// other becomes the best so far. The climb ends at `max_age` undone
    /// moves, or when the sampler has run out, and leaves the best state in
    /// `state`. Where the sampler has run out on entry, or `max_age` is not
    /// positive, the state comes back with only its energy filled in.
    #[verifier::rlimit(40)]
    pub fn hill_climb(
        &mut self,
        target: &Pixels,
        current: &Pixels,
        state: &mut State,
        max_age: i32,
    )
        requires
            old(self).wf(),
            old(self).serves(target, current),
            old(state).sound(old(self), target, current),
        ensures
            old(self).task(target, current).climbs(
                *old(state),
                max_age as int,
                *final(state),
                old(self).rng.budget() as int,
                final(self).rng.budget() as int,
            ),
            old(self).rng.budget() == 0 || max_age <= 0 ==> *final(state) == (State {
                score: Some(old(state).spec_energy(old(self), target, current) as u64),
                ..*old(state)
            }) && final(self).rng.budget() == old(self).rng.budget(),
            final(state).alpha == old(state).alpha,
            final(state).shape.kind() == old(state).shape.kind(),
            final(state).score.is_some(),
            final(state).sound(final(self), target, current),
            final(state).spec_energy(final(self), target, current) <= old(state).spec_energy(
                old(self),
                target,
                current,
            ),
            old(state).shape.settled() ==> final(state).shape.settled(),
            old(state).shape.canonical() ==> final(state).shape.canonical(),
            old(state).shape.fits(old(self).w, old(self).h) && old(state).shape.roomy(
                old(self).w,
                old(self).h,
            ) ==> final(state).shape.fits(old(self).w, old(self).h),
            final(self).rng.budget() <= old(self).rng.budget(),
            final(self).wf(),
            final(self).same_task(old(self)),
    {
        let ghost task = self.task(target, current);
        let ghost start = *state;
        let ghost budget = self.rng.budget() as int;
        let mut undo: State = *state;
        let mut best_state: State = *state;
        let mut best_energy: u64 = best_state.energy(self, target, current);
        let ghost first = best_energy;
        let ghost mut trace: Seq<(Shape, u64)> = Seq::empty();
        let ghost mut costs: Seq<int> = Seq::empty();
        proof {
            task.lemma_steps_begin(start, max_age as int, budget);
        }
        let mut age: i32 = 0;
        while age < max_age && self.rng.left() > 0
            invariant
                0 <= age,
                self.wf(),
                self.serves(target, current),
                self.same_task(old(self)),
                task == old(self).task(target, current),
                start == *old(state),
                budget == old(self).rng.budget(),
                self.rng.budget() <= old(self).rng.budget(),
                state.sound(self, target, current),
                state.alpha == start.alpha,
                state.shape == best_state.shape,
                best_state.alpha == start.alpha,
                best_state.shape.kind() == start.shape.kind(),
                best_state.score == Some(best_energy),
                best_state.sound(self, target, current),
                best_energy <= first,
                first == task.energy(start.shape, start.alpha),
                start.shape.settled() ==> best_state.shape.settled(),
                start.shape.canonical() ==> best_state.shape.canonical(),
                start.shape.fits(task.w, task.h) && start.shape.roomy(task.w, task.h)
                    ==> best_state.shape.fits(task.w, task.h),
                task.stands(start, trace) == (best_state.shape, best_energy as int, age as int),
                task.steps(start, max_age as int, budget, trace, costs),
                total(costs) == budget - self.rng.budget(),
                budget == 0 || max_age <= 0 ==> trace.len() == 0,
                trace.len() == 0 ==> best_state.shape == start.shape && best_energy == first
                    && self.rng.budget() == budget,
            decreases self.rng.budget(),
        {
            let ghost had = self.rng.budget() as int;
            state.do_move(self, &mut undo);
            let energy: u64 = state.energy(self, target, current);
            proof {
                task.lemma_steps_on(
                    start,
                    max_age as int,
                    budget,
                    trace,
                    costs,
                    state.shape,
                    energy,
                    had - self.rng.budget(),
                );
                assert(trace.push((state.shape, energy)).drop_last() =~= trace);
                trace = trace.push((state.shape, energy));
                costs = costs.push(had - self.rng.budget());
            }
            if keeps(energy, best_energy) {
                best_energy = energy;
                best_state.copy_from(state);
            } else {
                state.copy_from(&undo);
                age += 1;
            }
        }
        state.copy_from(&best_state);
        proof {
            reveal(Task::climbs);
        }
    }

    /// The first of `n` random states of the family `t` at the alpha `a`
    /// that has the lowest energy of them. One state is drawn where `n` is
    /// zero.
    #[verifier::rlimit(40)]
    pub fn best_random_state(
        &mut self,
        target: &Pixels,
        current: &Pixels,
        t: ShapeType,
        a: u8,
        n: u32,
    ) -> (best: State)
        requires
            old(self).wf(),
            old(self).serves(target, current),
            a > 0,
        ensures
            old(self).task(target, current).draws_best(
                t,
                a,
                if n == 0 { 1 } else { n as int },
                best,
                old(self).rng.budget() as int,
                final(self).rng.budget() as int,
            ),
            best.shape.kind() == t,
            best.alpha == a,
            best.score.is_some(),
            best.sound(final(self), target, current),
            best.shape.fits(old(self).w, old(self).h),
            best.shape.settled(),
            t != ShapeType::Triangle ==> best.shape.starts(old(self).w, old(self).h),
            final(self).rng.budget() <= old(self).rng.budget(),
            final(self).wf(),
            final(self).same_task(old(self)),
    {
        let ghost task = self.task(target, current);
        let ghost budget = self.rng.budget() as int;
        let mut best_state: State = self.random_state(t, a);
        let mut best_energy: u64 = best_state.energy(self, target, current);
        let ghost mut cands: Seq<(State, u64)> = Seq::empty();
        let ghost mut costs: Seq<int> = Seq::empty();
        let ghost mut place: int = 0;
        proof {
            task.lemma_draws_begin(t, a, budget);
            task.lemma_draws_on(
                t,
                a,
                budget,
                cands,
                costs,
                (best_state, best_energy),
                budget - self.rng.budget(),
            );
            cands = cands.push((best_state, best_energy));
            costs = costs.push(budget - self.rng.budget());
        }
        let mut i: u32 = 1;
        while i < n
            invariant
                1 <= i,
                i <= n || (n == 0 && i == 1),
                a > 0,
                self.wf(),
                self.serves(target, current),
                self.same_task(old(self)),
                task == old(self).task(target, current),
                budget == old(self).rng.budget(),
                self.rng.budget() <= old(self).rng.budget(),
                best_state.shape.kind() == t,
                best_state.alpha == a,
                best_state.score == Some(best_energy),
                best_state.sound(self, target, current),
                best_state.shape.fits(old(self).w, old(self).h),
                best_state.shape.settled(),
                t != ShapeType::Triangle ==> best_state.shape.starts(old(self).w, old(self).h),
                cands.len() == i,
                task.draws(t, a, budget, cands, costs),
                total(costs) == budget - self.rng.budget(),
                is_first_lowest(cands, place),
                best_state.shape == cands[place].0.shape,
                cands[place].0.alpha == a,
                best_energy == cands[place].1,
            decreases n - i,
        {
            let ghost had = self.rng.budget() as int;
            let mut state: State = self.random_state(t, a);
            let energy: u64 = state.energy(self, target, current);
            proof {
                task.lemma_draws_on(
                    t,
                    a,
                    budget,
                    cands,
                    costs,
                    (state, energy),
                    had - self.rng.budget(),
                );
                let longer = cands.push((state, energy));
                if energy < best_energy {
                    assert(is_first_lowest(longer, i as int));
                    place = i as int;
                } else {
                    assert(is_first_lowest(longer, place));
                }
                cands = longer;
                costs = costs.push(had - self.rng.budget());
            }
            if energy < best_energy {
                best_energy = energy;
                best_state = state;
            }
            i += 1;
        }
        proof {
            reveal(Task::draws_best);
            assert(best_among(cands, best_state));
        }
        best_state
    }

    /// A state of a random shape of the family `t` at `alpha`.
    pub fn random_state(&mut self, t: ShapeType, alpha: u8) -> (s: State)
        requires
            old(self).wf(),
        ensures
            s.shape.kind() == t,
            s.alpha == alpha,
            s.score.is_none(),
            s.shape.fits(old(self).w, old(self).h),
            s.shape.settled(),
            s.shape.drawn_for(
                t,
                old(self).w,
                old(self).h,
                old(self).rng.budget() - final(self).rng.budget(),
                final(self).rng.budget() == 0,
            ),
            final(self).rng.budget() <= old(self).rng.budget(),
            final(self).wf(),
            final(self).same_task(old(self)),
    {
        let shape: Shape = Shape::random(t, self.w, self.h, &mut self.rng);
        State::new(shape, alpha)
    }
}

} // verus!
