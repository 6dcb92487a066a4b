use pixel_engine::draw::line::Line;
use pixel_engine::{draw_to_frame, Drawable, Point, Rgba, HEIGHT, WIDTH};

fn blank() -> Vec<u8> {
    vec![0u8; (WIDTH * HEIGHT * 4) as usize]
}

fn lit(frame: &[u8]) -> Vec<(i32, i32)> {
    let mut out = Vec::new();
    for y in 0..HEIGHT {
        for x in 0..WIDTH {
            let i = (((HEIGHT - y - 1) * WIDTH + x) * 4) as usize;
            if frame[i..i + 4] != [0, 0, 0, 0] {
                out.push((x, y));
            }
        }
    }
    out.sort();
    out
}

fn white() -> Rgba {
    Rgba::from_u8(0xff, 0xff, 0xff, 0xff)
}

fn drawn(x0: i32, y0: i32, x1: i32, y1: i32) -> Vec<(i32, i32)> {
    let mut frame = blank();
    Line::new(Point::new(x0, y0), Point::new(x1, y1), white()).draw(&mut frame);
    lit(&frame)
}

#[test]
fn line_of_one_point_draws_one_pixel() {
    assert_eq!(drawn(5, 9, 5, 9), vec![(5, 9)]);
    assert_eq!(drawn(0, 0, 0, 0), vec![(0, 0)]);
    assert_eq!(drawn(110, 100, 110, 100), vec![(110, 100)]);
}

#[test]
fn line_of_one_point_off_canvas_draws_nothing() {
    assert_eq!(drawn(-1, 4, -1, 4), vec![]);
    assert_eq!(drawn(i32::MAX, i32::MIN, i32::MAX, i32::MIN), vec![]);
}

#[test]
fn line_horizontal() {
    assert_eq!(drawn(2, 3, 6, 3), vec![(2, 3), (3, 3), (4, 3), (5, 3), (6, 3)]);
    assert_eq!(drawn(6, 3, 2, 3), vec![(2, 3), (3, 3), (4, 3), (5, 3), (6, 3)]);
}

#[test]
fn line_vertical() {
    assert_eq!(drawn(4, 1, 4, 4), vec![(4, 1), (4, 2), (4, 3), (4, 4)]);
    assert_eq!(drawn(4, 4, 4, 1), vec![(4, 1), (4, 2), (4, 3), (4, 4)]);
}

#[test]
fn line_diagonal() {
    assert_eq!(drawn(1, 1, 4, 4), vec![(1, 1), (2, 2), (3, 3), (4, 4)]);
    assert_eq!(drawn(1, 4, 4, 1), vec![(1, 4), (2, 3), (3, 2), (4, 1)]);
}

#[test]
fn line_shallow() {
    assert_eq!(drawn(0, 0, 3, 1), vec![(0, 0), (1, 0), (2, 1), (3, 1)]);
}

#[test]
fn line_steep() {
    assert_eq!(
        drawn(1, 1, 4, 9),
        vec![(1, 1), (1, 2), (2, 3), (2, 4), (3, 5), (3, 6), (3, 7), (4, 8), (4, 9)]
    );
}

#[test]
fn line_midway_rounds_away_from_start() {
    // The ideal line from (0,0) to (2,1) passes midway between (1,0) and (1,1).
    assert_eq!(drawn(0, 0, 2, 1), vec![(0, 0), (1, 1), (2, 1)]);
    assert_eq!(drawn(2, 1, 0, 0), vec![(0, 0), (1, 0), (2, 1)]);
}

#[test]
fn line_same_pixels_in_both_directions() {
    for (x0, y0, x1, y1) in [(0, 0, 3, 1), (10, 20, 17, 25), (50, 3, 45, 90), (0, 100, 110, 0)] {
        assert_eq!(drawn(x0, y0, x1, y1), drawn(x1, y1, x0, y0));
    }
}

#[test]
fn line_is_clipped_to_the_canvas() {
    assert_eq!(
        drawn(-3, -3, 3, 3),
        vec![(0, 0), (1, 1), (2, 2), (3, 3)]
    );
    let across = drawn(-50, 7, 400, 7);
    assert_eq!(across.len(), WIDTH as usize);
    assert!(across.iter().all(|p| p.1 == 7));
}

#[test]
fn line_far_off_canvas_leaves_frame_unchanged() {
    let mut frame = blank();
    Line::new(Point::new(-2000, 300), Point::new(-1000, 5000), white()).draw(&mut frame);
    assert_eq!(frame, blank());
    assert_eq!(frame.len(), (WIDTH * HEIGHT * 4) as usize);
}

#[test]
fn line_from_points_is_opaque_black() {
    let mut frame = vec![7u8; (WIDTH * HEIGHT * 4) as usize];
    Line::from_points(Point::new(0, 100), Point::new(1, 100)).draw(&mut frame);
    assert_eq!(&frame[0..8], &[0, 0, 0, 0xff, 0, 0, 0, 0xff]);
    assert_eq!(frame[8], 7);
}

#[test]
fn line_color_replaces_the_colour() {
    let mut line = Line::from_points(Point::new(0, 100), Point::new(0, 100));
    line.color(Rgba::from_u8(9, 8, 7, 6));
    let mut frame = blank();
    line.draw(&mut frame);
    assert_eq!(&frame[0..4], &[9, 8, 7, 6]);
}

#[test]
fn line_draw_twice_is_draw_once() {
    let line = Line::new(Point::new(3, 90), Point::new(100, 5), white());
    let mut once = blank();
    line.draw(&mut once);
    let mut twice = once.clone();
    line.draw(&mut twice);
    assert_eq!(once, twice);
    let mut fresh = blank();
    line.draw(&mut fresh);
    assert_eq!(once, fresh);
}

#[test]
fn draw_to_frame_draws_the_shape() {
    let mut direct = blank();
    Line::new(Point::new(1, 2), Point::new(30, 40), white()).draw(&mut direct);
    let mut through = blank();
    draw_to_frame(&mut through, Line::new(Point::new(1, 2), Point::new(30, 40), white()));
    assert_eq!(direct, through);
    assert_eq!(lit(&direct).len(), 39);
}

/// The stepping with a running error term, on a canvas without bounds.
fn stepped(mut x0: i64, mut y0: i64, x1: i64, y1: i64) -> Vec<(i64, i64)> {
    let mut out = Vec::new();
    let dx = (x1 - x0).abs();
    let sx = if x0 < x1 { 1 } else { -1 };
    let dy = -(y1 - y0).abs();
    let sy = if y0 < y1 { 1 } else { -1 };
    let mut error = dx + dy;
    loop {
        out.push((x0, y0));
        if x0 == x1 && y0 == y1 {
            break;
        }
        let e2 = 2 * error;
        if e2 >= dy {
            if x0 == x1 {
                break;
            }
            error += dy;
            x0 += sx;
        }
        if e2 <= dx {
            if y0 == y1 {
                break;
            }
            error += dx;
            y0 += sy;
        }
    }
    out
}

fn on_canvas(points: Vec<(i64, i64)>) -> Vec<(i32, i32)> {
    let mut out: Vec<(i32, i32)> = points
        .into_iter()
        .filter(|p| 0 <= p.0 && p.0 < WIDTH as i64 && 0 <= p.1 && p.1 < HEIGHT as i64)
        .map(|p| (p.0 as i32, p.1 as i32))
        .collect();
    out.sort();
    out.dedup();
    out
}

#[test]
fn line_follows_the_error_term() {
    let xs = [-9, 0, 1, 17, 54, 110, 111, 130];
    let ys = [-4, 0, 2, 33, 100, 101, 140];
    for x0 in xs {
        for y0 in ys {
            for x1 in xs {
                for y1 in ys {
                    let expected = on_canvas(stepped(x0 as i64, y0 as i64, x1 as i64, y1 as i64));
                    assert_eq!(drawn(x0, y0, x1, y1), expected, "{x0},{y0} to {x1},{y1}");
                }
            }
        }
    }
}

#[test]
fn line_between_far_ends_of_the_coordinates() {
    let far = drawn(i32::MIN, 50, i32::MIN + 300, 50);
    assert_eq!(far, vec![]);
    let mut frame = blank();
    Line::new(Point::new(-70000, -70000), Point::new(70000, 70000), white()).draw(&mut frame);
    let diagonal: Vec<(i32, i32)> = (0..HEIGHT).map(|k| (k, k)).collect();
    assert_eq!(lit(&frame), diagonal);
}
