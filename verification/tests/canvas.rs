use primg::canvas::{draw_lines, erase, fit_channel, Pixels};
use primg::color::Color;
use primg::scanline::Scanline;

fn filled(w: usize, h: usize, c: Color) -> Pixels {
    let mut p = Pixels::new(w, h);
    p.erase(&c);
    p
}

#[test]
fn a_new_canvas_is_all_zero() {
    let p = Pixels::new(3, 2);
    assert_eq!((p.w, p.h), (3, 2));
    assert_eq!(p.buf, vec![0u8; 24]);
    let empty = Pixels::new(0, 5);
    assert!(empty.buf.is_empty());
}

#[test]
fn from_keeps_the_bytes() {
    let raw: Vec<u8> = (0..24).collect();
    let p = Pixels::from(raw.clone(), 3, 2);
    assert_eq!((p.w, p.h), (3, 2));
    assert_eq!(p.buf, raw);
}

#[test]
fn index_is_row_major_with_four_bytes_to_the_pixel() {
    let p = Pixels::new(5, 4);
    assert_eq!(p.index(0, 0), 0);
    assert_eq!(p.index(1, 0), 4);
    assert_eq!(p.index(0, 1), 20);
    assert_eq!(p.index(4, 3), 76);
}

#[test]
fn get_and_get_arr_read_the_pixel() {
    let raw: Vec<u8> = (0..24).collect();
    let p = Pixels::from(raw, 3, 2);
    let c = p.get(1, 1);
    assert_eq!((c.r(), c.g(), c.b(), c.a()), (16, 17, 18, 19));
    assert_eq!(p.get_arr(1, 1), &[16, 17, 18, 19]);
    assert_eq!(p.get_arr(0, 0), &[0, 1, 2, 3]);
    assert_eq!(p.get_arr(2, 1), &[20, 21, 22, 23]);
}

#[test]
fn put_sets_one_pixel_only() {
    let mut p = Pixels::new(3, 2);
    p.put(2, 0, &Color::new(9, 8, 7, 6));
    let mut want = vec![0u8; 24];
    want[8..12].copy_from_slice(&[9, 8, 7, 6]);
    assert_eq!(p.buf, want);
    let c = p.get(2, 0);
    assert_eq!((c.r(), c.g(), c.b(), c.a()), (9, 8, 7, 6));
}

#[test]
fn erase_fills_every_pixel() {
    let mut p = Pixels::from((0..24).collect(), 3, 2);
    p.erase(&Color::new(1, 2, 3, 4));
    assert_eq!(p.buf, [1u8, 2, 3, 4].repeat(6));
    let mut raw = vec![7u8; 8];
    erase(&mut raw, &Color::new(5, 6, 7, 8));
    assert_eq!(raw, vec![5, 6, 7, 8, 5, 6, 7, 8]);
}

#[test]
fn erasing_twice_is_erasing_once() {
    let c = Color::new(200, 100, 50, 255);
    let mut once = Pixels::from((0..64).collect(), 4, 4);
    once.erase(&c);
    let mut twice = Pixels::from((0..64).rev().collect(), 4, 4);
    twice.erase(&c);
    twice.erase(&c);
    assert_eq!(once.buf, twice.buf);
}

#[test]
fn average_color_is_the_mean_rounded_down_and_opaque() {
    let raw = vec![10, 20, 30, 0, 20, 40, 60, 7, 31, 61, 91, 255];
    let p = Pixels::from(raw, 3, 1);
    let c = p.average_color();
    assert_eq!((c.r(), c.g(), c.b(), c.a()), (20, 40, 60, 255));
    let one = Pixels::from(vec![255, 0, 1, 3], 1, 1);
    let c = one.average_color();
    assert_eq!((c.r(), c.g(), c.b(), c.a()), (255, 0, 1, 255));
}

#[test]
fn draw_lines_blends_with_whole_numbers() {
    let mut p = filled(2, 1, Color::new(10, 20, 30, 255));
    p.draw_lines(&Color::new(200, 100, 50, 128), &[Scanline { y: 0, x1: 1, x2: 1 }]);
    assert_eq!(p.buf, vec![10, 20, 30, 255, 104, 59, 39, 255]);
}

#[test]
fn draw_lines_reads_the_alpha_of_the_destination() {
    let mut p = filled(1, 1, Color::new(100, 100, 100, 128));
    p.draw_lines(&Color::new(200, 0, 255, 64), &[Scanline { y: 0, x1: 0, x2: 0 }]);
    // diff = 191; 100 * 128 * 191 / 255 = 9587
    // red (200 * 64 + 9587) / 256 = 87, green 9587 / 256 = 37, blue (255 * 64 + 9587) / 256 = 101
    // alpha 64 + 128 * 191 / 255 = 64 + 95
    assert_eq!(p.buf, vec![87, 37, 101, 159]);
}

#[test]
fn an_opaque_canvas_stays_opaque() {
    let mut p = filled(4, 4, Color::new(9, 99, 199, 255));
    for alpha in [1u8, 2, 64, 127, 128, 200, 254, 255] {
        let lines = [Scanline { y: 1, x1: 0, x2: 3 }, Scanline { y: 2, x1: 1, x2: 2 }];
        p.draw_lines(&Color::new(alpha, 255 - alpha, 77, alpha), &lines);
        for y in 0..4 {
            for x in 0..4 {
                assert_eq!(p.get(x, y).a(), 255);
            }
        }
    }
}

#[test]
fn draw_lines_touches_the_spans_only() {
    let bg = Color::new(50, 60, 70, 255);
    let mut p = filled(5, 3, bg);
    let lines = [Scanline { y: 0, x1: 1, x2: 3 }, Scanline { y: 2, x1: 4, x2: 4 }];
    p.draw_lines(&Color::new(255, 255, 255, 255), &lines);
    for y in 0..3 {
        for x in 0..5 {
            let inside = (y == 0 && (1..=3).contains(&x)) || (y == 2 && x == 4);
            let c = p.get(x, y);
            if inside {
                assert_eq!((c.r(), c.g(), c.b(), c.a()), (254, 254, 254, 255));
            } else {
                assert_eq!((c.r(), c.g(), c.b(), c.a()), (50, 60, 70, 255));
            }
        }
    }
}

#[test]
fn the_free_draw_lines_works_on_plain_bytes() {
    let mut buf = [10u8, 20, 30, 255].repeat(2);
    draw_lines(&mut buf, 2, 1, &Color::new(200, 100, 50, 128), &[Scanline { y: 0, x1: 0, x2: 0 }]);
    assert_eq!(buf, vec![104, 59, 39, 255, 10, 20, 30, 255]);
}

#[test]
fn draw_lines_with_no_spans_changes_nothing() {
    let mut p = filled(3, 3, Color::new(1, 2, 3, 255));
    let before = p.buf.clone();
    p.draw_lines(&Color::new(200, 100, 50, 128), &[]);
    assert_eq!(p.buf, before);
}

#[test]
fn copy_lines_takes_the_spans_from_the_source() {
    let src = Pixels::from((0..48).collect(), 4, 3);
    let mut dst = Pixels::new(4, 3);
    dst.copy_lines(&src, &[Scanline { y: 1, x1: 1, x2: 2 }, Scanline { y: 2, x1: 3, x2: 3 }]);
    let mut want = vec![0u8; 48];
    want[20..28].copy_from_slice(&src.buf[20..28]);
    want[44..48].copy_from_slice(&src.buf[44..48]);
    assert_eq!(dst.buf, want);
}

#[test]
fn compute_color_follows_the_closed_form() {
    let target = filled(1, 1, Color::new(200, 100, 50, 255));
    let current = filled(1, 1, Color::new(10, 20, 30, 255));
    // a = 65535 / 128 = 511
    // red   (190 * 511 + 10 * 257) / 256 = 389.3, limited to 255
    // green ( 80 * 511 + 20 * 257) / 256 = 179.8, to the nearest 180
    // blue  ( 20 * 511 + 30 * 257) / 256 = 70.04, to the nearest 70
    let c = current.compute_color(&target, &[Scanline { y: 0, x1: 0, x2: 0 }], 128);
    assert_eq!((c.r(), c.g(), c.b(), c.a()), (255, 180, 70, 128));
}

#[test]
fn compute_color_limits_a_negative_mean_to_zero() {
    let target = filled(2, 1, Color::new(0, 0, 0, 255));
    let current = filled(2, 1, Color::new(200, 1, 0, 255));
    let c = current.compute_color(&target, &[Scanline { y: 0, x1: 0, x2: 1 }], 64);
    // a = 1023: red (-200 * 1023 + 200 * 257) < 0; green (-1023 + 257) < 0; blue 0
    assert_eq!((c.r(), c.g(), c.b(), c.a()), (0, 0, 0, 64));
}

#[test]
fn compute_color_takes_the_mean_over_all_spans() {
    let mut target = Pixels::new(2, 2);
    target.put(0, 0, &Color::new(100, 0, 0, 255));
    target.put(1, 0, &Color::new(200, 0, 0, 255));
    target.put(0, 1, &Color::new(50, 0, 0, 255));
    target.put(1, 1, &Color::new(255, 255, 255, 255));
    let current = filled(2, 2, Color::new(0, 0, 0, 255));
    let lines = [Scanline { y: 0, x1: 0, x2: 1 }, Scanline { y: 1, x1: 0, x2: 0 }];
    // alpha 255: a = 257; red (100 + 200 + 50) * 257 / (3 * 256) = 117.1, to the nearest 117
    let c = current.compute_color(&target, &lines, 255);
    assert_eq!((c.r(), c.g(), c.b(), c.a()), (117, 0, 0, 255));
}

#[test]
fn compute_color_over_no_spans_is_transparent_black() {
    let target = filled(2, 2, Color::new(9, 9, 9, 255));
    let current = filled(2, 2, Color::new(1, 1, 1, 255));
    let c = current.compute_color(&target, &[], 128);
    assert_eq!((c.r(), c.g(), c.b(), c.a()), (0, 0, 0, 0));
}

#[test]
fn difference_full_sums_the_squares_over_all_channels() {
    let a = Pixels::from(vec![0, 0, 0, 0, 10, 10, 10, 10], 2, 1);
    let b = Pixels::from(vec![1, 2, 3, 4, 10, 7, 10, 20], 2, 1);
    assert_eq!(Pixels::difference_full(&a, &b), 1 + 4 + 9 + 16 + 9 + 100);
    assert_eq!(Pixels::difference_full(&b, &a), 139);
    assert_eq!(Pixels::difference_full(&a, &a), 0);
    let black = Pixels::new(4, 4);
    let white = filled(4, 4, Color::new(255, 255, 255, 255));
    assert_eq!(Pixels::difference_full(&black, &white), 255 * 255 * 64);
}

#[test]
fn difference_partial_follows_the_change_on_the_spans() {
    let target = filled(3, 1, Color::new(100, 100, 100, 255));
    let before = filled(3, 1, Color::new(90, 100, 100, 255));
    let mut after = before.copy();
    after.put(1, 0, &Color::new(97, 100, 104, 255));
    let lines = [Scanline { y: 0, x1: 1, x2: 1 }];
    let score = Pixels::difference_full(&target, &before);
    assert_eq!(score, 300);
    let partial = Pixels::difference_partial(&target, &before, &after, score, &lines);
    assert_eq!(partial, 300 - 100 + 9 + 16);
    assert_eq!(partial, Pixels::difference_full(&target, &after));
}

#[test]
fn difference_partial_does_not_leave_the_range_of_the_score() {
    let target = filled(1, 1, Color::new(0, 0, 0, 255));
    let before = filled(1, 1, Color::new(10, 0, 0, 255));
    let after = filled(1, 1, Color::new(0, 0, 0, 255));
    let lines = [Scanline { y: 0, x1: 0, x2: 0 }];
    assert_eq!(Pixels::difference_partial(&target, &before, &after, 40, &lines), 0);
    assert_eq!(Pixels::difference_partial(&target, &after, &before, u64::MAX, &lines), u64::MAX);
    assert_eq!(Pixels::difference_partial(&target, &before, &after, 150, &lines), 50);
}

#[test]
fn the_score_kept_up_by_spans_is_the_score_taken_anew() {
    let w = 7;
    let h = 5;
    let mut target = Pixels::new(w, h);
    let mut canvas = Pixels::new(w, h);
    for y in 0..h {
        for x in 0..w {
            let v = (x * 37 + y * 11) as u8;
            target.put(x, y, &Color::new(v, v.wrapping_mul(3), 255 - v, 255));
            canvas.put(x, y, &Color::new(255 - v, v / 2, v, 255));
        }
    }
    let lines = [
        Scanline { y: 0, x1: 2, x2: 6 },
        Scanline { y: 1, x1: 0, x2: 0 },
        Scanline { y: 1, x1: 3, x2: 4 },
        Scanline { y: 4, x1: 0, x2: 6 },
    ];
    for alpha in [1u8, 64, 128, 255] {
        let before = canvas.copy();
        let score = Pixels::difference_full(&target, &before);
        let color = before.compute_color(&target, &lines, alpha);
        let mut after = before.copy();
        after.draw_lines(&color, &lines);
        let partial = Pixels::difference_partial(&target, &before, &after, score, &lines);
        assert_eq!(partial, Pixels::difference_full(&target, &after));
    }
}

#[test]
fn copy_gives_the_same_canvas() {
    let p = Pixels::from((0..32).collect(), 4, 2);
    let q = p.copy();
    assert_eq!((q.w, q.h), (4, 2));
    assert_eq!(q.buf, p.buf);
}

#[test]
fn spans_that_overlap_are_composited_one_after_the_other() {
    let mut twice = filled(3, 1, Color::new(100, 100, 100, 255));
    let lines = [Scanline { y: 0, x1: 0, x2: 1 }, Scanline { y: 0, x1: 1, x2: 2 }];
    let c = Color::new(200, 0, 50, 128);
    twice.draw_lines(&c, &lines);
    let mut once = filled(3, 1, Color::new(100, 100, 100, 255));
    once.draw_lines(&c, &lines[..1]);
    once.draw_lines(&c, &lines[1..]);
    assert_eq!(twice.buf, once.buf);
    // (200 * 128 + 100 * 127) / 256 = 149, then (200 * 128 + 149 * 127) / 256 = 173
    assert_eq!(twice.get(0, 0).r(), 149);
    assert_eq!(twice.get(1, 0).r(), 173);
    assert_eq!(twice.get(2, 0).r(), 149);
}

#[test]
fn compute_color_rounds_to_the_nearest() {
    let black = filled(1, 1, Color::new(0, 0, 0, 255));
    let line = [Scanline { y: 0, x1: 0, x2: 0 }];
    // 100 * 511 / 256 = 199.6
    let target = filled(1, 1, Color::new(100, 0, 0, 255));
    let c = black.compute_color(&target, &line, 128);
    assert_eq!((c.r(), c.g(), c.b(), c.a()), (200, 0, 0, 128));
    // the colour that the compositor turns into the target: (200 * 128) / 256 = 100
    let mut stamped = black.copy();
    stamped.draw_lines(&c, &line);
    assert_eq!(stamped.get(0, 0).r(), 100);
    // 1 * 511 / 256 = 1.996; 2 * 257 / 256 = 2.008 at alpha 255
    let target = filled(1, 1, Color::new(1, 2, 0, 255));
    let c = black.compute_color(&target, &line, 128);
    assert_eq!((c.r(), c.g()), (2, 4));
    let c = black.compute_color(&target, &line, 255);
    assert_eq!((c.r(), c.g()), (1, 2));
}

#[test]
fn the_best_channel_rounds_halves_up() {
    assert_eq!(fit_channel(0, 1), 0);
    assert_eq!(fit_channel(127, 1), 0);
    assert_eq!(fit_channel(128, 1), 1);
    assert_eq!(fit_channel(383, 1), 1);
    assert_eq!(fit_channel(384, 1), 2);
    assert_eq!(fit_channel(383, 3), 0);
    assert_eq!(fit_channel(384, 3), 1);
    assert_eq!(fit_channel(256 * 3 * 7 + 383, 3), 7);
    assert_eq!(fit_channel(256 * 3 * 7 + 384, 3), 8);
    assert_eq!(fit_channel(65151, 1), 254);
    assert_eq!(fit_channel(65152, 1), 255);
    assert_eq!(fit_channel(i128::MAX, 1), 255);
    assert_eq!(fit_channel(i128::MAX, i128::MAX), 0);
    assert_eq!(fit_channel(-1, 1), 0);
    assert_eq!(fit_channel(-100000, 7), 0);
    assert_eq!(fit_channel(i128::MIN, 1), 0);
}
