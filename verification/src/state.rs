//! A candidate of the search: a shape, its alpha, and its energy once that
//! is known.

use vstd::prelude::*;
use crate::canvas::Pixels;
use crate::shape::Shape;
use crate::worker::{Worker, energy_of};

verus! {

/// A shape with the alpha at which it is stamped and, once it was
/// computed, the energy of the canvas with the shape stamped on it.
#[derive(Debug, Clone, Copy)]
pub struct State {
    pub shape: Shape,
    pub alpha: u8,
    pub score: Option<u64>,
}

impl State {
    /// The energy that the state holds, if it holds one, is the energy of
    /// its shape for `worker` on the canvases `target` and `current`.
    pub open spec fn sound(&self, worker: &Worker, target: &Pixels, current: &Pixels) -> bool {
        &&& self.alpha > 0
        &&& match self.score {
            Some(e) => e == energy_of(
                target.buf@,
                current.buf@,
                worker.w,
                worker.h,
                self.shape,
                self.alpha,
                worker.score,
            ),
            None => true,
        }
    }

    /// The energy of the state's shape for `worker` on the canvases
    /// `target` and `current`.
    pub open spec fn spec_energy(&self, worker: &Worker, target: &Pixels, current: &Pixels) -> int {
        energy_of(
            target.buf@,
            current.buf@,
            worker.w,
            worker.h,
            self.shape,
            self.alpha,
            worker.score,
        )
    }

    /// A state of `shape` at `alpha` whose energy is not known yet.
    pub fn new(shape: Shape, alpha: u8) -> (s: State)
        ensures
            s == (State { shape, alpha, score: None }),
    {
        State { shape, alpha, score: None }
    }

    /// The energy of the state: the one it holds, or else the one that
    /// `worker` computes, which the state then holds.
    pub fn energy(&mut self, worker: &mut Worker, target: &Pixels, current: &Pixels) -> (e: u64)
        requires
            old(worker).wf(),
            old(worker).serves(target, current),
            old(self).sound(old(worker), target, current),
        ensures
            e == old(self).spec_energy(old(worker), target, current),
            *final(self) == (State { score: Some(e), ..*old(self) }),
            final(self).sound(final(worker), target, current),
            final(worker).wf(),
            final(worker).same_task(old(worker)),
            final(worker).rng == old(worker).rng,
    {
        match self.score {
            Some(e) => e,
            None => {
                let e: u64 = worker.energy(target, current, &self.shape, self.alpha);
                self.score = Some(e);
                e
            },
        }
    }

    /// Keeps the state in `undo`, then mutates the shape and forgets the
    /// energy.
    pub fn do_move(&mut self, worker: &mut Worker, undo: &mut State)
        requires
            old(worker).wf(),
        ensures
            *final(undo) == *old(self),
            final(self).alpha == old(self).alpha,
            final(self).score.is_none(),
            old(self).shape.mutated_to(
                final(self).shape,
                old(worker).w,
                old(worker).h,
                old(worker).rng.budget() - final(worker).rng.budget(),
                final(worker).rng.budget() == 0,
            ),
            final(self).shape.kind() == old(self).shape.kind(),
            final(self).shape.canonical(),
            final(self).shape.settled(),
            old(self).shape.fits(old(worker).w, old(worker).h) && old(self).shape.roomy(
                old(worker).w,
                old(worker).h,
            ) ==> final(self).shape.fits(old(worker).w, old(worker).h),
            final(worker).wf(),
            final(worker).same_task(old(worker)),
            final(worker).rng.budget() <= old(worker).rng.budget(),
            old(worker).rng.budget() > 0 ==> final(worker).rng.budget() < old(worker).rng.budget(),
    {
        undo.copy_from(self);
        self.shape.mutate(worker.w, worker.h, &mut worker.rng);
        self.score = None;
    }

    /// Makes the state the same as `other`.
    pub fn copy_from(&mut self, other: &State)
        ensures
            *final(self) == *other,
    {
        self.shape = other.shape;
        self.alpha = other.alpha;
        self.score = other.score;
    }
}

/// `k` is the place of the first of the proposals `found` that has the
/// lowest energy.
pub open spec fn is_first_lowest(found: Seq<(State, u64)>, k: int) -> bool {
    &&& 0 <= k < found.len()
    &&& forall|j: int| 0 <= j < found.len() ==> found[k].1 <= (#[trigger] found[j]).1
    &&& forall|j: int| 0 <= j < k ==> found[k].1 < (#[trigger] found[j]).1
}

/// The place of the first of the proposals `found` that has the lowest
/// energy.
pub fn first_lowest(found: &Vec<(State, u64)>) -> (k: usize)
    requires
        found.len() > 0,
    ensures
        is_first_lowest(found@, k as int),
{
    let mut best: usize = 0;
    let mut i: usize = 1;
    while i < found.len()
        invariant
            1 <= i <= found.len(),
            best < i,
            forall|j: int| 0 <= j < i ==> found[best as int].1 <= (#[trigger] found[j]).1,
            forall|j: int| 0 <= j < best ==> found[best as int].1 < (#[trigger] found[j]).1,
        decreases found.len() - i,
    {
        if found[i].1 < found[best].1 {
            best = i;
        }
        i += 1;
    }
    best
}

} // verus!
