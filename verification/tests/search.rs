use primg::canvas::Pixels;
use primg::color::Color;
use primg::sampler::Sampler;
use primg::scanline::Scanline;
use primg::shape::{is_settled, Shape, ShapeType};
use primg::state::State;
use primg::worker::{keeps, Worker};
use rand::{SeedableRng, StdRng};

fn sampler(seed: usize, budget: u64) -> Sampler {
    let seed = [seed, 11, 12, 13];
    let rng: StdRng = SeedableRng::from_seed(&seed[..]);
    Sampler::new(rng, budget)
}

fn gradient(w: usize, h: usize) -> Pixels {
    let mut p = Pixels::new(w, h);
    for y in 0..h {
        for x in 0..w {
            let c = Color::new((x * 255 / w) as u8, (y * 255 / h) as u8, ((x + y) * 7) as u8, 255);
            p.put(x, y, &c);
        }
    }
    p
}

fn setting(w: usize, h: usize, seed: usize) -> (Pixels, Pixels, Worker) {
    let target = gradient(w, h);
    let mut current = Pixels::new(w, h);
    current.erase(&target.average_color());
    let mut worker = Worker::new(w, h, sampler(seed, u64::MAX));
    worker.init(Pixels::difference_full(&target, &current));
    (target, current, worker)
}

fn stamped(target: &Pixels, current: &Pixels, shape: &Shape, alpha: u8) -> Pixels {
    let mut buf = Scanline::buffer(current.h);
    let n = shape.rasterize(current.w, current.h, &mut buf);
    let color = current.compute_color(target, &buf[..n], alpha);
    let mut after = current.copy();
    after.draw_lines(&color, &buf[..n]);
    after
}

#[test]
fn a_new_worker_has_a_scratch_canvas_and_room_for_spans() {
    let worker = Worker::new(6, 4, sampler(1, 3));
    assert_eq!((worker.w, worker.h), (6, 4));
    assert_eq!((worker.buffer.w, worker.buffer.h), (6, 4));
    assert_eq!(worker.buffer.buf.len(), 96);
    assert_eq!(worker.scanlines.len(), 5);
    assert_eq!(worker.score, 0);
    assert_eq!(worker.rng.left(), 3);
}

#[test]
fn init_sets_the_score() {
    let mut worker = Worker::new(6, 4, sampler(1, 3));
    worker.init(12345);
    assert_eq!(worker.score, 12345);
    assert_eq!((worker.w, worker.h), (6, 4));
}

#[test]
fn the_energy_of_a_shape_is_the_distance_of_the_stamped_canvas() {
    let (target, current, mut worker) = setting(16, 12, 1);
    let shapes = [
        Shape::Triangle { x1: 0, y1: 0, x2: 15, y2: 3, x3: 4, y3: 11 },
        Shape::Ellipse { x: 8, y: 6, rx: 5, ry: 4 },
        Shape::Rectangle { x1: 3, y1: 2, x2: 12, y2: 9 },
        Shape::RotatedRectangle { x: 8, y: 6, sx: 9, sy: 5, angle: 30 },
        Shape::Rectangle { x1: 40, y1: 40, x2: 50, y2: 50 },
    ];
    for shape in shapes.iter() {
        for alpha in [1u8, 64, 128, 255] {
            let e = worker.energy(&target, &current, shape, alpha);
            let after = stamped(&target, &current, shape, alpha);
            assert_eq!(e, Pixels::difference_full(&target, &after), "{:?} at {}", shape, alpha);
        }
    }
    let off = worker.energy(&target, &current, &shapes[4], 128);
    assert_eq!(off, worker.score);
}

#[test]
fn the_energy_goes_by_the_score_that_the_worker_was_told() {
    let (target, current, mut worker) = setting(16, 12, 1);
    let shape = Shape::Ellipse { x: 8, y: 6, rx: 5, ry: 4 };
    let e = worker.energy(&target, &current, &shape, 128);
    let told = worker.score;
    worker.init(told + 1000);
    assert_eq!(worker.energy(&target, &current, &shape, 128), e + 1000);
}

#[test]
fn a_state_keeps_its_energy_once_it_is_known() {
    let (target, current, mut worker) = setting(16, 12, 2);
    let mut state = State::new(Shape::Ellipse { x: 8, y: 6, rx: 5, ry: 4 }, 128);
    assert_eq!(state.score, None);
    let e = state.energy(&mut worker, &target, &current);
    assert_eq!(state.score, Some(e));
    assert_eq!(e, worker.energy(&target, &current, &state.shape, 128));
    state.score = Some(7);
    assert_eq!(state.energy(&mut worker, &target, &current), 7);
}

#[test]
fn a_move_keeps_the_old_state_and_forgets_the_energy() {
    let (target, current, mut worker) = setting(16, 12, 3);
    let mut state = State::new(Shape::Rectangle { x1: 3, y1: 2, x2: 12, y2: 9 }, 99);
    let e = state.energy(&mut worker, &target, &current);
    let mut undo = State::new(Shape::Ellipse { x: 0, y: 0, rx: 1, ry: 1 }, 1);
    let before = state;
    state.do_move(&mut worker, &mut undo);
    assert_eq!(undo.shape, before.shape);
    assert_eq!(undo.alpha, 99);
    assert_eq!(undo.score, Some(e));
    assert_eq!(state.alpha, 99);
    assert_eq!(state.score, None);
    assert!(matches!(state.shape, Shape::Rectangle { .. }));
    state.copy_from(&undo);
    assert_eq!(state.shape, before.shape);
    assert_eq!(state.score, Some(e));
}

#[test]
fn a_random_state_has_no_energy_yet() {
    let (_, _, mut worker) = setting(16, 12, 4);
    let s = worker.random_state(ShapeType::Triangle, 77);
    assert_eq!(s.alpha, 77);
    assert_eq!(s.score, None);
    assert!(matches!(s.shape, Shape::Triangle { .. }));
    assert!(is_settled(&s.shape));
}

#[test]
fn the_best_random_state_is_no_worse_than_a_single_draw() {
    for t in [ShapeType::Triangle, ShapeType::Ellipse, ShapeType::Rectangle, ShapeType::RotatedRectangle] {
        let (target, current, mut one) = setting(16, 12, 5);
        let (_, _, mut many) = setting(16, 12, 5);
        let mut first = one.best_random_state(&target, &current, t, 128, 1);
        let mut best = many.best_random_state(&target, &current, t, 128, 50);
        let e1 = first.energy(&mut one, &target, &current);
        let e50 = best.energy(&mut many, &target, &current);
        assert!(e50 <= e1);
        assert_eq!(best.alpha, 128);
        assert_eq!(Some(e50), best.score);
        assert_eq!(e50, many.energy(&target, &current, &best.shape, 128));
        assert_eq!(best.shape.serialize().as_bytes()[0], b"0123"[t as usize]);
    }
}

#[test]
fn a_climb_never_ends_higher_than_it_began() {
    for (i, t) in [ShapeType::Triangle, ShapeType::Ellipse, ShapeType::Rectangle, ShapeType::RotatedRectangle]
        .iter()
        .enumerate()
    {
        let (target, current, mut worker) = setting(16, 12, 6 + i);
        for _ in 0..5 {
            let mut state = worker.random_state(*t, 128);
            let begin = state.energy(&mut worker, &target, &current);
            worker.hill_climb(&target, &current, &mut state, 30);
            let end = state.score.expect("a climbed state knows its energy");
            assert!(end <= begin);
            assert_eq!(end, worker.energy(&target, &current, &state.shape, 128));
            assert!(is_settled(&state.shape));
            assert_eq!(state.alpha, 128);
        }
    }
}

#[test]
fn a_climb_finds_something_better_on_a_plain_target() {
    let (target, current, mut worker) = setting(16, 12, 10);
    let mut improved = 0;
    for _ in 0..10 {
        let mut state = worker.random_state(ShapeType::Ellipse, 128);
        let begin = state.energy(&mut worker, &target, &current);
        worker.hill_climb(&target, &current, &mut state, 100);
        if state.score.unwrap() < begin {
            improved += 1;
        }
    }
    assert!(improved >= 5);
}

#[test]
fn a_climb_without_rejections_allowed_leaves_the_state() {
    let (target, current, mut worker) = setting(16, 12, 11);
    let mut state = worker.random_state(ShapeType::Rectangle, 128);
    let shape = state.shape;
    let left = worker.rng.left();
    worker.hill_climb(&target, &current, &mut state, 0);
    assert_eq!(state.shape, shape);
    assert_eq!(worker.rng.left(), left);
    worker.hill_climb(&target, &current, &mut state, -5);
    assert_eq!(state.shape, shape);
}

#[test]
fn a_climb_ends_when_the_sampler_has_run_out() {
    let (target, current, mut worker) = setting(16, 12, 12);
    let mut state = worker.random_state(ShapeType::Ellipse, 128);
    let begin = state.energy(&mut worker, &target, &current);
    worker.rng.refill(25);
    worker.hill_climb(&target, &current, &mut state, i32::MAX);
    assert_eq!(worker.rng.left(), 0);
    assert!(state.score.unwrap() <= begin);
}

#[test]
fn the_best_of_several_runs_knows_its_energy() {
    let (target, current, mut worker) = setting(12, 12, 13);
    let mut s = worker.best_hill_climb_state(&target, &current, ShapeType::Triangle, 128, 20, 3);
    let e = s.score.unwrap();
    assert_eq!(e, s.energy(&mut worker, &target, &current));
    assert_eq!(e, worker.energy(&target, &current, &s.shape, 128));
    assert!(is_settled(&s.shape));
    assert!(e < worker.score);
}

#[test]
fn a_climb_keeps_what_is_not_higher() {
    assert!(keeps(5, 9));
    assert!(keeps(9, 9));
    assert!(!keeps(10, 9));
    assert!(keeps(0, 0));
    assert!(!keeps(u64::MAX, 0));
}

#[test]
fn a_climb_without_budget_only_fills_in_the_energy() {
    let (target, current, mut worker) = setting(16, 12, 14);
    let mut state = worker.random_state(ShapeType::Triangle, 128);
    let given = state;
    worker.rng.refill(0);
    worker.hill_climb(&target, &current, &mut state, 100);
    assert_eq!(state.shape, given.shape);
    assert_eq!(state.alpha, given.alpha);
    assert_eq!(state.score, Some(worker.energy(&target, &current, &given.shape, 128)));
    assert_eq!(worker.rng.left(), 0);
}

#[test]
fn a_climb_spends_a_perturbation_for_each_move_of_another_family() {
    // an ellipse is perturbed once to the move: at the end either the
    // budget is spent, or 30 moves and more were made
    let (target, current, mut worker) = setting(16, 12, 15);
    let mut state = worker.random_state(ShapeType::Ellipse, 128);
    worker.rng.refill(1000);
    worker.hill_climb(&target, &current, &mut state, 30);
    let spent = 1000 - worker.rng.left();
    assert!(spent >= 30);
    assert!(worker.rng.left() > 0);
    worker.rng.refill(7);
    worker.hill_climb(&target, &current, &mut state, i32::MAX);
    assert_eq!(worker.rng.left(), 0);
}

#[test]
fn the_states_found_are_valid_whatever_the_budget() {
    for budget in [0u64, 1, 5, 50] {
        let (target, current, mut worker) = setting(12, 12, 16);
        worker.rng.refill(budget);
        let s = worker.best_hill_climb_state(&target, &current, ShapeType::Triangle, 128, 10, 2);
        assert!(is_settled(&s.shape));
        assert_eq!(s.score, Some(worker.energy(&target, &current, &s.shape, 128)));
    }
}
