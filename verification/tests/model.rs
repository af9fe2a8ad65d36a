use primg::canvas::Pixels;
use primg::color::Color;
use primg::model::{scale_up, Model};
use primg::sampler::Sampler;
use primg::scanline::Scanline;
use primg::shape::{Shape, ShapeType};
use primg::state::{first_lowest, State};
use primg::triangle::is_valid_triangle;
use primg::worker::Worker;
use rand::{SeedableRng, StdRng};

fn sampler(seed: usize) -> Sampler {
    let seed = [seed, 100, 200, 300];
    let rng: StdRng = SeedableRng::from_seed(&seed[..]);
    Sampler::new(rng, u64::MAX)
}

fn model_of(target: Pixels, workers: usize, out_size: usize, seed: usize) -> Model {
    let (w, h) = (target.w, target.h);
    let team = (0..workers).map(|i| Worker::new(w, h, sampler(seed * 10 + i))).collect();
    Model::new(target, team, out_size)
}

fn solid(w: usize, h: usize, c: Color) -> Pixels {
    let mut p = Pixels::new(w, h);
    p.erase(&c);
    p
}

fn chessboard(w: usize, h: usize) -> Pixels {
    let mut p = Pixels::new(w, h);
    for y in 0..h {
        for x in 0..w {
            let c = if (x / 4 + y / 4) % 2 == 0 { Color::new(255, 0, 0, 255) } else { Color::new(0, 0, 255, 255) };
            p.put(x, y, &c);
        }
    }
    p
}

fn gradient(w: usize, h: usize) -> Pixels {
    let mut p = Pixels::new(w, h);
    for y in 0..h {
        for x in 0..w {
            p.put(x, y, &Color::new((x * 16) as u8, (y * 16) as u8, ((x + y) * 8) as u8, 255));
        }
    }
    p
}

fn normalised(total: u64, w: usize, h: usize) -> f64 {
    (total as f64 / (w * h * 4) as f64).sqrt() / 255.0
}

fn count(text: &str, part: &str) -> usize {
    text.matches(part).count()
}

#[test]
fn a_new_model_starts_from_the_average_colour() {
    let mut target = Pixels::new(2, 2);
    target.put(0, 0, &Color::new(10, 0, 0, 255));
    target.put(1, 0, &Color::new(20, 0, 4, 255));
    target.put(0, 1, &Color::new(30, 0, 0, 255));
    target.put(1, 1, &Color::new(41, 2, 0, 255));
    let m = model_of(target, 2, 8, 1);
    assert_eq!((m.w, m.h, m.sw, m.sh), (2, 2, 8, 8));
    assert_eq!((m.bg.r(), m.bg.g(), m.bg.b(), m.bg.a()), (25, 0, 1, 255));
    assert_eq!(m.current.buf, [25u8, 0, 1, 255].repeat(4));
    assert_eq!(m.score, 225 + 1 + 25 + 9 + 25 + 1 + 256 + 4 + 1);
    assert_eq!(m.score, Pixels::difference_full(&m.target, &m.current));
    assert!(m.shapes.is_empty() && m.colors.is_empty());
    assert_eq!(m.workers.len(), 2);
    assert_eq!(m.scanlines.len(), 3);
}

#[test]
fn the_output_is_as_large_as_its_greater_side_asks() {
    let m = model_of(Pixels::new(200, 100), 1, 1024, 1);
    assert_eq!((m.sw, m.sh, m.out_size, m.bigger), (1024, 512, 1024, 200));
    let m = model_of(Pixels::new(3, 7), 1, 10, 1);
    assert_eq!((m.sw, m.sh), (5, 10));
    assert_eq!(scale_up(3, 10, 7), 5);
    assert_eq!(scale_up(7, 10, 7), 10);
    assert_eq!(scale_up(1, 1, 3), 1);
    assert_eq!(scale_up(0, 10, 7), 0);
    assert_eq!(scale_up(4, 0, 7), 0);
}

#[test]
fn the_first_of_the_lowest_proposals_is_taken() {
    let s = State::new(Shape::Ellipse { x: 0, y: 0, rx: 1, ry: 1 }, 1);
    assert_eq!(first_lowest(&vec![(s, 5)]), 0);
    assert_eq!(first_lowest(&vec![(s, 5), (s, 3), (s, 9), (s, 3)]), 1);
    assert_eq!(first_lowest(&vec![(s, 5), (s, 5), (s, 5)]), 0);
    assert_eq!(first_lowest(&vec![(s, 9), (s, 8), (s, 7)]), 2);
    assert_eq!(first_lowest(&vec![(s, 0), (s, u64::MAX)]), 0);
}

#[test]
fn commit_stamps_the_first_of_the_lowest_proposals() {
    let mut m = model_of(gradient(16, 16), 1, 16, 2);
    let a = State::new(Shape::Rectangle { x1: 0, y1: 0, x2: 3, y2: 3 }, 128);
    let b = State::new(Shape::Ellipse { x: 8, y: 8, rx: 4, ry: 4 }, 64);
    let c = State::new(Shape::Rectangle { x1: 9, y1: 9, x2: 12, y2: 12 }, 32);
    let (shape, color) = m.commit(&vec![(a, 70), (b, 50), (c, 50)]);
    assert_eq!(shape, b.shape);
    assert_eq!(color.a(), 64);
    assert_eq!(m.shapes, vec![b.shape]);
    assert_eq!(m.colors.len(), 1);
    assert_eq!(m.score, Pixels::difference_full(&m.target, &m.current));
}

#[test]
fn add_commits_the_shape_in_its_best_colour() {
    let mut m = model_of(gradient(16, 16), 1, 64, 3);
    let before = m.current.copy();
    let shape = Shape::Rectangle { x1: 2, y1: 3, x2: 9, y2: 5 };
    let lines: Vec<Scanline> = (3..=5).map(|y| Scanline { y, x1: 2, x2: 9 }).collect();
    let want = before.compute_color(&m.target, &lines, 200);
    let mut after = before.copy();
    after.draw_lines(&want, &lines);
    let (s, c) = m.add(shape, 200);
    assert_eq!(s, shape);
    assert_eq!((c.r(), c.g(), c.b(), c.a()), (want.r(), want.g(), want.b(), 200));
    assert_eq!(m.current.buf, after.buf);
    assert_eq!(m.score, Pixels::difference_full(&m.target, &after));
    assert_eq!(m.shapes, vec![shape]);
    assert_eq!(m.colors.len(), 1);
    assert_eq!(m.colors[0].a(), 200);
}

#[test]
fn a_step_adds_one_shape_of_the_family_asked_for() {
    for (i, t) in [ShapeType::Triangle, ShapeType::Ellipse, ShapeType::Rectangle, ShapeType::RotatedRectangle]
        .iter()
        .enumerate()
    {
        let mut m = model_of(gradient(16, 16), 2, 16, 4 + i);
        for k in 1..=3 {
            let (shape, color) = m.step(*t, 128, 30, 2);
            assert_eq!(shape.serialize().as_bytes()[0], b"0123"[i]);
            assert_eq!(color.a(), 128);
            assert_eq!(m.shapes.len(), k);
            assert_eq!(m.colors.len(), k);
            assert_eq!(m.shapes[k - 1], shape);
            assert_eq!(m.colors[k - 1].to_argb_i32(), color.to_argb_i32());
            assert_eq!(m.score, Pixels::difference_full(&m.target, &m.current));
        }
    }
}

#[test]
fn the_proposals_come_one_from_each_worker_with_their_energies() {
    let mut m = model_of(gradient(16, 16), 3, 16, 9);
    let found = m.propose(ShapeType::Ellipse, 128, 20, 3);
    assert_eq!(found.len(), 3);
    assert!(m.shapes.is_empty());
    for (state, energy) in found.iter() {
        assert_eq!(state.score, Some(*energy));
        let mut trial = model_of(gradient(16, 16), 1, 16, 9);
        trial.add(state.shape, 128);
        assert_eq!(trial.score, *energy);
    }
    assert!(found.iter().any(|p| p.0.shape != found[0].0.shape));
}

#[test]
fn the_same_seeds_give_the_same_history() {
    let mut a = model_of(gradient(16, 16), 2, 16, 10);
    let mut b = model_of(gradient(16, 16), 2, 16, 10);
    let mut c = model_of(gradient(16, 16), 2, 16, 11);
    for _ in 0..5 {
        a.step(ShapeType::Triangle, 128, 20, 4);
        b.step(ShapeType::Triangle, 128, 20, 4);
        c.step(ShapeType::Triangle, 128, 20, 4);
    }
    assert_eq!(a.shapes, b.shapes);
    assert_eq!(a.current.buf, b.current.buf);
    assert_ne!(a.shapes, c.shapes);
}

#[test]
fn replaying_the_history_at_the_working_size_gives_the_current_canvas() {
    for (i, t) in [ShapeType::Triangle, ShapeType::Ellipse, ShapeType::Rectangle, ShapeType::RotatedRectangle]
        .iter()
        .enumerate()
    {
        let mut m = model_of(gradient(16, 12), 2, 16, 20 + i);
        assert_eq!(m.render(), m.current.buf);
        for _ in 0..6 {
            m.step(*t, 100, 20, 2);
            assert_eq!((m.sw, m.sh), (16, 12));
            assert_eq!(m.render(), m.current.buf);
        }
    }
}

#[test]
fn the_output_is_the_history_replayed_at_its_scale() {
    let mut m = model_of(gradient(16, 16), 1, 64, 30);
    m.add(Shape::Rectangle { x1: 2, y1: 3, x2: 9, y2: 5 }, 128);
    m.add(Shape::Ellipse { x: 8, y: 8, rx: 4, ry: 3 }, 128);
    let img = m.render();
    assert_eq!(img.len(), 64 * 64 * 4);
    let mut want = Pixels::new(64, 64);
    want.erase(&m.bg);
    let lines: Vec<Scanline> = (12..=20).map(|y| Scanline { y, x1: 8, x2: 36 }).collect();
    want.draw_lines(&m.colors[0], &lines);
    let mut buf = Scanline::buffer(64);
    let n = Shape::Ellipse { x: 32, y: 32, rx: 16, ry: 12 }.rasterize(64, 64, &mut buf);
    assert_eq!(n, 23);
    want.draw_lines(&m.colors[1], &buf[..n]);
    assert_eq!(img, want.buf);
}

#[test]
fn a_triangle_on_a_red_target_leaves_the_rest_in_the_background() {
    let red = Color::new(255, 0, 0, 255);
    let mut m = model_of(solid(4, 4, red), 2, 4, 40);
    assert_eq!(m.score, 0);
    let (shape, color) = m.step(ShapeType::Triangle, 128, 50, 2);
    let (x1, y1, x2, y2, x3, y3) = match shape {
        Shape::Triangle { x1, y1, x2, y2, x3, y3 } => (x1, y1, x2, y2, x3, y3),
        _ => panic!("{:?}", shape),
    };
    assert!(is_valid_triangle(x1, y1, x2, y2, x3, y3));
    let mut buf = Scanline::buffer(4);
    let n = shape.rasterize(4, 4, &mut buf);
    // a triangle that covers no pixel is given the colour that stands for none
    assert_eq!(color.a(), if n == 0 { 0 } else { 128 });
    for y in 0..4 {
        for x in 0..4 {
            let inside = buf[..n].iter().any(|s| s.y == y && s.x1 <= x && x <= s.x2);
            let c = m.current.get(x, y);
            if inside {
                assert!(c.r() >= 254);
                assert!(c.g() <= 1 && c.b() <= 1);
            } else {
                assert_eq!((c.r(), c.g(), c.b()), (255, 0, 0));
            }
            assert_eq!(c.a(), 255);
        }
    }
    assert_eq!(m.score, Pixels::difference_full(&m.target, &m.current));
}

#[test]
fn a_triangle_stamped_on_a_red_canvas_is_red_to_within_one() {
    let red = Color::new(255, 0, 0, 255);
    let mut m = model_of(solid(4, 4, red), 1, 4, 40);
    let shape = Shape::Triangle { x1: 0, y1: 0, x2: 3, y2: 0, x3: 0, y3: 3 };
    let (_, color) = m.add(shape, 128);
    assert_eq!((color.r(), color.g(), color.b(), color.a()), (255, 0, 0, 128));
    let mut inside = 0;
    for y in 0..4 {
        for x in 0..4 {
            let c = m.current.get(x, y);
            if x + y <= 3 {
                assert_eq!((c.r(), c.g(), c.b(), c.a()), (254, 0, 0, 255));
                inside += 1;
            } else {
                assert_eq!((c.r(), c.g(), c.b(), c.a()), (255, 0, 0, 255));
            }
        }
    }
    assert_eq!(inside, 10);
    // the whole-number blend takes one from the red of each pixel it touches
    assert_eq!(m.score, 10);
}

#[test]
fn ten_ellipses_bring_a_chessboard_closer() {
    let mut m = model_of(chessboard(8, 8), 2, 8, 41);
    let initial = normalised(m.score, 8, 8);
    for _ in 0..10 {
        m.step(ShapeType::Ellipse, 128, 100, 4);
    }
    let last = normalised(m.score, 8, 8);
    assert!(last < initial * 0.95, "{} against {}", last, initial);
}

#[test]
fn fifty_rectangles_give_fifty_elements_and_the_background() {
    let mut m = model_of(gradient(16, 16), 2, 64, 42);
    let mut scores = vec![m.score];
    for _ in 0..50 {
        m.step(ShapeType::Rectangle, 64, 50, 2);
        scores.push(m.score);
    }
    assert!(scores[50] < scores[0]);
    let text = m.svg();
    assert_eq!(count(&text, "<rect"), 51);
    assert_eq!(count(&text, "fill-opacity=\"0.250980\""), 50);
    assert_eq!(count(&text, "<svg"), 1);
    assert_eq!(count(&text, "</svg>"), 1);
    assert_eq!(count(&text, "<g "), 1);
    assert_eq!(count(&text, "</g>"), 1);
    assert_eq!(count(&text, "/>"), 51);
    assert_eq!(text.lines().count(), 55);
    assert!(text.ends_with("</g>\n</svg>"));
    for line in text.lines() {
        assert!(line.starts_with('<') && line.ends_with('>'));
        assert_eq!(count(line, "\"") % 2, 0);
    }
}

#[test]
fn the_document_opens_with_the_size_the_background_and_the_scale() {
    let mut target = Pixels::new(3, 2);
    target.erase(&Color::new(0xab, 0x0c, 0xff, 255));
    let mut m = model_of(target, 1, 10, 43);
    m.add(Shape::Triangle { x1: 0, y1: 0, x2: 2, y2: 0, x3: 0, y3: 1 }, 255);
    let text = m.svg();
    let lines: Vec<&str> = text.lines().collect();
    assert_eq!(lines.len(), 6);
    assert_eq!(
        lines[0],
        "<svg xmlns=\"http://www.w3.org/2000/svg\" version=\"1.1\" width=\"10\" height=\"7\">"
    );
    assert_eq!(lines[1], "<rect x=\"0\" y=\"0\" width=\"10\" height=\"7\" fill=\"#ab0cff\" />");
    assert_eq!(lines[2], "<g transform=\"scale(3.333333) translate(0.5 0.5)\">");
    // the best red over 0xab is 0xab * 257 / 256 = 171.7, to the nearest 0xac
    assert_eq!(
        lines[3],
        "<polygon fill=\"#ac0cff\" fill-opacity=\"1.000000\" points=\"0,0 2,0 0,1\" />"
    );
    assert_eq!(lines[4], "</g>");
    assert_eq!(lines[5], "</svg>");
}

#[test]
fn the_canvas_stays_opaque_through_the_steps() {
    let mut m = model_of(gradient(16, 16), 1, 16, 44);
    for _ in 0..10 {
        m.step(ShapeType::Triangle, 77, 20, 1);
    }
    for y in 0..16 {
        for x in 0..16 {
            assert_eq!(m.current.get(x, y).a(), 255);
        }
    }
}

#[test]
fn the_score_after_a_step_is_the_least_energy_proposed() {
    let mut m = model_of(gradient(16, 16), 3, 16, 50);
    for _ in 0..5 {
        let before = m.score;
        let found = m.propose(ShapeType::Triangle, 128, 20, 3);
        let least = found.iter().map(|p| p.1).min().unwrap();
        let first = found.iter().position(|p| p.1 == least).unwrap();
        let (shape, _) = m.commit(&found);
        assert_eq!(shape, found[first].0.shape);
        assert_eq!(m.score, least);
        if found.iter().any(|p| p.1 <= before) {
            assert!(m.score <= before);
        }
    }
}

#[test]
fn the_score_may_rise_where_the_target_is_met() {
    let mut m = model_of(solid(4, 4, Color::new(200, 100, 50, 255)), 1, 4, 51);
    assert_eq!(m.score, 0);
    m.add(Shape::Rectangle { x1: 0, y1: 0, x2: 3, y2: 3 }, 128);
    assert!(m.score > 0);
    assert_eq!(m.score, Pixels::difference_full(&m.target, &m.current));
}

#[test]
fn each_worker_makes_its_share_of_the_runs() {
    assert_eq!(Model::runs_each(8, 1), 8);
    assert_eq!(Model::runs_each(8, 2), 4);
    assert_eq!(Model::runs_each(8, 3), 2);
    assert_eq!(Model::runs_each(8, 8), 1);
    assert_eq!(Model::runs_each(8, 9), 1);
    assert_eq!(Model::runs_each(0, 4), 1);
    assert_eq!(Model::runs_each(255, 1), 255);
    assert_eq!(Model::runs_each(1, usize::MAX), 1);
}

#[test]
fn the_first_shape_on_a_plain_target_stays_within_one_of_it() {
    let families = [ShapeType::Triangle, ShapeType::Ellipse, ShapeType::Rectangle, ShapeType::RotatedRectangle];
    let colours = [(255u8, 0u8, 0u8), (200, 100, 50), (0, 127, 128), (1, 254, 129)];
    let mut touched = 0;
    for (i, t) in families.iter().enumerate() {
        for (j, &(r, g, b)) in colours.iter().enumerate() {
            for alpha in [1u8, 64, 128, 255] {
                let mut m = model_of(solid(6, 5, Color::new(r, g, b, 255)), 1, 6, 60 + i * 4 + j);
                assert_eq!((m.bg.r(), m.bg.g(), m.bg.b(), m.bg.a()), (r, g, b, 255));
                let (shape, _) = m.step(*t, alpha, 5, 1);
                let mut buf = Scanline::buffer(5);
                let n = shape.rasterize(6, 5, &mut buf);
                for y in 0..5 {
                    for x in 0..6 {
                        let c = m.current.get(x, y);
                        if buf[..n].iter().any(|s| s.y == y && s.x1 <= x && x <= s.x2) {
                            assert!(c.r() <= r && c.r() as i32 >= r as i32 - 1);
                            assert!(c.g() <= g && c.g() as i32 >= g as i32 - 1);
                            assert!(c.b() <= b && c.b() as i32 >= b as i32 - 1);
                            touched += 1;
                        } else {
                            assert_eq!((c.r(), c.g(), c.b()), (r, g, b));
                        }
                        assert_eq!(c.a(), 255);
                    }
                }
            }
        }
    }
    // a search on a target that is met prefers shapes that cover nothing; stamp one that does
    let mut m = model_of(solid(6, 5, Color::new(200, 100, 50, 255)), 1, 6, 99);
    m.add(Shape::Ellipse { x: 3, y: 2, rx: 2, ry: 2 }, 128);
    for y in 0..5 {
        for x in 0..6 {
            let c = m.current.get(x, y);
            assert!(c.r() == 200 || c.r() == 199);
            assert!(c.g() == 100 || c.g() == 99);
            assert!(c.b() == 50 || c.b() == 49);
            if c.r() == 199 {
                touched += 1;
            }
        }
    }
    assert!(touched > 0);
}

#[test]
fn the_lines_that_begin_with_rect_are_the_background_and_the_rectangles() {
    let mut m = model_of(gradient(16, 16), 1, 32, 70);
    m.add(Shape::Rectangle { x1: 1, y1: 1, x2: 4, y2: 4 }, 128);
    m.add(Shape::Triangle { x1: 0, y1: 0, x2: 9, y2: 0, x3: 0, y3: 9 }, 128);
    m.add(Shape::RotatedRectangle { x: 8, y: 8, sx: 5, sy: 3, angle: 30 }, 128);
    m.add(Shape::Ellipse { x: 8, y: 8, rx: 3, ry: 3 }, 128);
    m.add(Shape::Rectangle { x1: 9, y1: 9, x2: 12, y2: 15 }, 128);
    let text = m.svg();
    let lines: Vec<&str> = text.split('\n').collect();
    assert_eq!(lines.len(), 5 + 5);
    assert!(lines[0].starts_with("<svg ") && lines[0].ends_with(">"));
    assert!(lines[1].starts_with("<rect ") && lines[1].ends_with(" />"));
    assert!(lines[2].starts_with("<g ") && lines[2].ends_with(">"));
    assert_eq!(lines[8], "</g>");
    assert_eq!(lines[9], "</svg>");
    for (i, shape) in m.shapes.iter().enumerate() {
        assert!(lines[3 + i].ends_with("/>") || lines[3 + i].ends_with("</g>"));
        assert_eq!(lines[3 + i].starts_with("<rect "), matches!(shape, Shape::Rectangle { .. }));
    }
    assert_eq!(lines.iter().filter(|l| l.starts_with("<rect ")).count(), 1 + 2);
    let empty = model_of(gradient(16, 16), 1, 32, 71).svg();
    assert_eq!(empty.split('\n').count(), 5);
    assert_eq!(empty.split('\n').filter(|l| l.starts_with("<rect ")).count(), 1);
}
