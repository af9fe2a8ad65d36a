use primg::scanline::Scanline;
use primg::shape::Shape;

fn spans_of(shape: &Shape, w: usize, h: usize) -> Vec<Scanline> {
    let mut buf = Scanline::buffer(h);
    let n = shape.rasterize(w, h, &mut buf);
    buf[..n].to_vec()
}

#[test]
fn triangle_with_level_top_fills_every_row() {
    let t = Shape::Triangle { x1: 0, y1: 0, x2: 10, y2: 0, x3: 0, y3: 10 };
    let spans = spans_of(&t, 11, 11);
    assert_eq!(spans.len(), 11);
    for (i, s) in spans.iter().enumerate() {
        assert_eq!(s.y, i);
        assert_eq!(s.x1, 0);
        assert_eq!(s.x2, 10 - s.y);
    }
}

#[test]
fn ellipse_is_symmetric_about_its_centre_row() {
    let e = Shape::Ellipse { x: 5, y: 5, rx: 4, ry: 3 };
    let spans = spans_of(&e, 11, 11);
    assert_eq!(spans.len(), 5);
    for s in spans.iter() {
        let mirror = 10 - s.y;
        let other = spans.iter().find(|o| o.y == mirror).expect("mirrored row");
        assert_eq!((other.x1, other.x2), (s.x1, s.x2));
    }
    let centre = spans.iter().find(|s| s.y == 5).unwrap();
    assert_eq!((centre.x1, centre.x2), (1, 9));
}

#[test]
fn rotated_rectangle_at_angle_zero_is_a_block() {
    let r = Shape::RotatedRectangle { x: 5, y: 5, sx: 4, sy: 2, angle: 0 };
    let spans = spans_of(&r, 11, 11);
    assert_eq!(spans.len(), 2);
    for s in spans.iter() {
        assert_eq!(s.x2 - s.x1 + 1, 4);
        assert!(s.x1 <= 5 && 5 <= s.x2);
    }
    assert_eq!(spans[0].y + 1, spans[1].y);
}

#[test]
fn rectangle_has_a_span_for_each_of_its_rows() {
    let r = Shape::Rectangle { x1: 2, y1: 3, x2: 5, y2: 6 };
    let spans = spans_of(&r, 10, 10);
    assert_eq!(spans.len(), 4);
    for (i, s) in spans.iter().enumerate() {
        assert_eq!(*s, Scanline { y: 3 + i, x1: 2, x2: 5 });
    }
    let one = Shape::Rectangle { x1: 4, y1: 4, x2: 4, y2: 4 };
    assert_eq!(spans_of(&one, 10, 10), vec![Scanline { y: 4, x1: 4, x2: 4 }]);
}

#[test]
fn rectangle_is_cropped_to_the_canvas() {
    let r = Shape::Rectangle { x1: -3, y1: -2, x2: 20, y2: 1 };
    let spans = spans_of(&r, 8, 6);
    assert_eq!(spans, vec![Scanline { y: 0, x1: 0, x2: 7 }, Scanline { y: 1, x1: 0, x2: 7 }]);
    let off = Shape::Rectangle { x1: 10, y1: 0, x2: 12, y2: 3 };
    assert!(spans_of(&off, 8, 6).is_empty());
    let wrong = Shape::Rectangle { x1: 5, y1: 4, x2: 3, y2: 2 };
    assert!(spans_of(&wrong, 8, 6).is_empty());
}

#[test]
fn rasterize_leaves_the_rest_of_the_buffer() {
    let marker = Scanline { y: 77, x1: 1, x2: 2 };
    let mut buf = vec![marker; 12];
    let r = Shape::Rectangle { x1: 0, y1: 0, x2: 1, y2: 2 };
    let n = r.rasterize(11, 11, &mut buf);
    assert_eq!(n, 3);
    assert_eq!(buf.len(), 12);
    assert!(buf[3..].iter().all(|s| *s == marker));
}

#[test]
fn triangle_with_level_base_narrows_towards_its_top() {
    let t = Shape::Triangle { x1: 5, y1: 0, x2: 0, y2: 5, x3: 10, y3: 5 };
    let spans = spans_of(&t, 11, 11);
    assert_eq!(spans.len(), 6);
    for (i, s) in spans.iter().enumerate() {
        assert_eq!(*s, Scanline { y: i, x1: 5 - i, x2: 5 + i });
    }
}

#[test]
fn triangle_is_split_at_its_middle_corner() {
    let t = Shape::Triangle { x1: 0, y1: 0, x2: 8, y2: 4, x3: 0, y3: 8 };
    let spans = spans_of(&t, 9, 9);
    let want: Vec<Scanline> = (0..9)
        .map(|y: usize| Scanline { y, x1: 0, x2: if y <= 4 { 2 * y } else { 16 - 2 * y } })
        .collect();
    assert_eq!(spans, want);
    // the same triangle, its corners given in another order
    let t = Shape::Triangle { x1: 0, y1: 8, x2: 0, y2: 0, x3: 8, y3: 4 };
    assert_eq!(spans_of(&t, 9, 9), want);
}

#[test]
fn triangle_is_cropped_to_the_canvas() {
    let t = Shape::Triangle { x1: -4, y1: -4, x2: 12, y2: -4, x3: -4, y3: 12 };
    let spans = spans_of(&t, 5, 5);
    assert_eq!(spans.len(), 5);
    for (i, s) in spans.iter().enumerate() {
        assert_eq!(*s, Scanline { y: i, x1: 0, x2: 4 });
    }
    let off = Shape::Triangle { x1: 20, y1: 0, x2: 30, y2: 0, x3: 25, y3: 4 };
    assert!(spans_of(&off, 5, 5).is_empty());
}

#[test]
fn ellipse_has_the_width_of_the_formula() {
    // ry = 3: half widths sqrt(9 - dy * dy) * 4 / 3, rounded down: 4, 3, 2
    let e = Shape::Ellipse { x: 5, y: 5, rx: 4, ry: 3 };
    let spans = spans_of(&e, 11, 11);
    let want = vec![
        Scanline { y: 5, x1: 1, x2: 9 },
        Scanline { y: 4, x1: 2, x2: 8 },
        Scanline { y: 6, x1: 2, x2: 8 },
        Scanline { y: 3, x1: 3, x2: 7 },
        Scanline { y: 7, x1: 3, x2: 7 },
    ];
    assert_eq!(spans, want);
}

#[test]
fn ellipse_is_cropped_to_the_canvas() {
    let e = Shape::Ellipse { x: 0, y: 0, rx: 3, ry: 2 };
    let spans = spans_of(&e, 4, 4);
    // half widths 3 and sqrt(3) * 3 / 2 = 2.59..., rounded down
    assert_eq!(spans, vec![Scanline { y: 0, x1: 0, x2: 3 }, Scanline { y: 1, x1: 0, x2: 2 }]);
    assert!(spans_of(&Shape::Ellipse { x: 2, y: 2, rx: 3, ry: 0 }, 4, 4).is_empty());
    assert!(spans_of(&Shape::Ellipse { x: 2, y: 2, rx: -1, ry: 3 }, 4, 4).is_empty());
    let thin = spans_of(&Shape::Ellipse { x: 2, y: 2, rx: 0, ry: 2 }, 4, 4);
    assert_eq!(thin.len(), 3);
    assert!(thin.iter().all(|s| s.x1 == 2 && s.x2 == 2));
}

#[test]
fn rotated_rectangle_at_a_quarter_turn_swaps_its_sides() {
    let r = Shape::RotatedRectangle { x: 5, y: 5, sx: 4, sy: 2, angle: 90 };
    let spans = spans_of(&r, 11, 11);
    assert_eq!(spans.len(), 4);
    for s in spans.iter() {
        assert_eq!(s.x2 - s.x1 + 1, 2);
    }
    let rows: Vec<usize> = spans.iter().map(|s| s.y).collect();
    assert_eq!(rows, vec![3, 4, 5, 6]);
}

#[test]
fn rotated_rectangle_is_the_same_a_full_turn_on() {
    for angle in [0, 30, 45, 90, 123, 180, 270, 359] {
        let a = spans_of(&Shape::RotatedRectangle { x: 9, y: 8, sx: 7, sy: 4, angle }, 20, 20);
        let b = spans_of(&Shape::RotatedRectangle { x: 9, y: 8, sx: 7, sy: 4, angle: angle + 360 }, 20, 20);
        let c = spans_of(&Shape::RotatedRectangle { x: 9, y: 8, sx: 7, sy: 4, angle: angle - 720 }, 20, 20);
        assert!(!a.is_empty());
        assert_eq!(a, b);
        assert_eq!(a, c);
    }
}

#[test]
fn rotated_rectangle_of_one_pixel_has_no_outline_to_walk() {
    let r = Shape::RotatedRectangle { x: 5, y: 5, sx: 1, sy: 1, angle: 0 };
    assert!(spans_of(&r, 11, 11).is_empty());
}

#[test]
fn rotated_rectangle_left_of_the_canvas_gives_no_span() {
    let r = Shape::RotatedRectangle { x: -20, y: 5, sx: 6, sy: 4, angle: 10 };
    assert!(spans_of(&r, 11, 11).is_empty());
}

#[test]
fn every_span_lies_on_the_canvas_and_on_a_row_of_its_own() {
    let (w, h) = (13usize, 9usize);
    let mut shapes = Vec::new();
    for i in -3..6 {
        for j in -2..5 {
            let (a, b) = (i * 5, j * 4);
            shapes.push(Shape::Triangle { x1: a, y1: b, x2: b + 7, y2: a - 3, x3: 20 - a, y3: 11 - b });
            shapes.push(Shape::Ellipse { x: a, y: b, rx: (i + 4) * 2, ry: (j + 3) * 3 });
            shapes.push(Shape::Rectangle { x1: a, y1: b, x2: a + 9, y2: b + 6 });
            shapes.push(Shape::RotatedRectangle { x: a, y: b, sx: 3 + j * j, sy: 2 + i * i, angle: i * 37 + j });
        }
    }
    let mut drawn = 0;
    for s in shapes.iter() {
        let spans = spans_of(s, w, h);
        assert!(spans.len() <= h);
        let mut rows = vec![false; h];
        for line in spans.iter() {
            assert!(line.y < h && line.x1 <= line.x2 && line.x2 < w, "{:?} of {:?}", line, s);
            assert!(!rows[line.y], "row {} twice in {:?}", line.y, s);
            rows[line.y] = true;
        }
        drawn += spans.len();
    }
    assert!(drawn > 500);
}

#[test]
fn a_canvas_without_pixels_gets_no_span() {
    let t = Shape::Triangle { x1: 0, y1: 0, x2: 10, y2: 0, x3: 0, y3: 10 };
    assert!(spans_of(&t, 0, 11).is_empty());
    assert!(spans_of(&t, 11, 0).is_empty());
}

#[test]
fn rotated_rectangle_of_odd_sides_is_centred() {
    let r = Shape::RotatedRectangle { x: 5, y: 5, sx: 5, sy: 3, angle: 0 };
    let want: Vec<Scanline> = (4..=6).map(|y| Scanline { y, x1: 3, x2: 7 }).collect();
    assert_eq!(spans_of(&r, 11, 11), want);
    let half = Shape::RotatedRectangle { x: 5, y: 5, sx: 5, sy: 3, angle: 180 };
    assert_eq!(spans_of(&half, 11, 11), want);
}

#[test]
fn rotated_rectangle_turned_by_an_eighth_is_a_diamond() {
    let r = Shape::RotatedRectangle { x: 10, y: 10, sx: 9, sy: 9, angle: 45 };
    let spans = spans_of(&r, 21, 21);
    assert!(spans.len() >= 9);
    let widest = spans.iter().map(|s| s.x2 - s.x1 + 1).max().unwrap();
    let first = spans.first().unwrap();
    let last = spans.last().unwrap();
    assert!(widest >= 9);
    assert!(first.x2 - first.x1 + 1 <= 3);
    assert!(last.x2 - last.x1 + 1 <= 3);
    for pair in spans.windows(2) {
        assert_eq!(pair[0].y + 1, pair[1].y);
    }
}
