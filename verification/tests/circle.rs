use pixel_engine::draw::circle::Circle;
use pixel_engine::{Drawable, Point, Rgba, HEIGHT, WIDTH};

fn blank() -> Vec<u8> {
    vec![0u8; (WIDTH * HEIGHT * 4) as usize]
}

fn lit(frame: &[u8]) -> Vec<(i32, i32)> {
    let mut out = Vec::new();
    for y in 0..HEIGHT {
        for x in 0..WIDTH {
            let i = (((HEIGHT - y - 1) * WIDTH + x) * 4) as usize;
            if frame[i..i + 4] != [0, 0, 0, 0] {
                out.push((x, y));
            }
        }
    }
    out.sort();
    out
}

fn drawn(cx: i32, cy: i32, r: i32) -> Vec<(i32, i32)> {
    let mut frame = blank();
    Circle::new(Point::new(cx, cy), r, Rgba::from_u8(1, 2, 3, 4)).draw(&mut frame);
    lit(&frame)
}

fn around(cx: i32, cy: i32, offsets: &[(i32, i32)]) -> Vec<(i32, i32)> {
    let mut out: Vec<(i32, i32)> = offsets.iter().map(|o| (o.0 + cx, o.1 + cy)).collect();
    out.sort();
    out
}

#[test]
fn circle_radius_zero_is_the_centre() {
    assert_eq!(drawn(50, 50, 0), vec![(50, 50)]);
    let mut frame = blank();
    Circle::new(Point::new(0, 100), 0, Rgba::from_u8(1, 2, 3, 4)).draw(&mut frame);
    assert_eq!(&frame[0..4], &[1, 2, 3, 4]);
    assert_eq!(frame.iter().filter(|b| **b != 0).count(), 4);
}

#[test]
fn circle_negative_radius_draws_nothing() {
    assert_eq!(drawn(50, 50, -1), vec![]);
    assert_eq!(drawn(50, 50, -40), vec![]);
    assert_eq!(drawn(50, 50, i32::MIN), vec![]);
}

#[test]
fn circle_radius_one() {
    assert_eq!(drawn(50, 50, 1), around(50, 50, &[(-1, 0), (0, -1), (0, 1), (1, 0)]));
}

#[test]
fn circle_radius_two() {
    assert_eq!(
        drawn(20, 30, 2),
        around(
            20,
            30,
            &[
                (-2, -1), (-2, 0), (-2, 1), (-1, -2), (-1, 2), (0, -2),
                (0, 2), (1, -2), (1, 2), (2, -1), (2, 0), (2, 1),
            ]
        )
    );
}

#[test]
fn circle_radius_three() {
    assert_eq!(
        drawn(20, 30, 3),
        around(
            20,
            30,
            &[
                (-3, -1), (-3, 0), (-3, 1), (-2, -2), (-2, 2), (-1, -3), (-1, 3), (0, -3),
                (0, 3), (1, -3), (1, 3), (2, -2), (2, 2), (3, -1), (3, 0), (3, 1),
            ]
        )
    );
}

#[test]
fn circle_radius_five() {
    assert_eq!(
        drawn(55, 50, 5),
        around(
            55,
            50,
            &[
                (-5, -2), (-5, -1), (-5, 0), (-5, 1), (-5, 2), (-4, -3), (-4, 3), (-3, -4),
                (-3, 4), (-2, -5), (-2, 5), (-1, -5), (-1, 5), (0, -5), (0, 5), (1, -5),
                (1, 5), (2, -5), (2, 5), (3, -4), (3, 4), (4, -3), (4, 3), (5, -2),
                (5, -1), (5, 0), (5, 1), (5, 2),
            ]
        )
    );
}

#[test]
fn circle_is_clipped_to_the_canvas() {
    assert_eq!(drawn(0, 0, 1), vec![(0, 1), (1, 0)]);
    assert_eq!(drawn(110, 100, 2), around(110, 100, &[(-2, -1), (-2, 0), (-1, -2), (0, -2)]));
}

#[test]
fn circle_larger_than_the_canvas() {
    let mut frame = blank();
    Circle::new(Point::new(55, 50), 500, Rgba::from_u8(1, 2, 3, 4)).draw(&mut frame);
    assert_eq!(frame, blank());
    assert_eq!(frame.len(), (WIDTH * HEIGHT * 4) as usize);
}

#[test]
fn circle_centre_off_canvas() {
    assert_eq!(drawn(-3, 50, 3), vec![(0, 49), (0, 50), (0, 51)]);
    assert_eq!(drawn(-4, 50, 3), vec![]);
}

#[test]
fn circle_draw_twice_is_draw_once() {
    let circle = Circle::new(Point::new(55, 50), 40, Rgba::from_u8(0xff, 0xff, 0xff, 0xff));
    let mut once = blank();
    circle.draw(&mut once);
    let mut twice = once.clone();
    circle.draw(&mut twice);
    assert_eq!(once, twice);
}

/// The stepping with the decision accumulator in floating point, seeded at radius / 16.
fn stepped(cx: i32, cy: i32, radius: i32) -> Vec<(i32, i32)> {
    let mut out = Vec::new();
    let mut t1 = radius as f32 / 16.0;
    let mut x1 = radius as f32;
    let mut y1 = 0.0f32;
    while x1 >= y1 {
        let (a, b) = (x1 as i32, y1 as i32);
        for (px, py) in [
            (a + cx, b + cy),
            (-a + cx, b + cy),
            (a + cx, -b + cy),
            (-a + cx, -b + cy),
            (b + cx, a + cy),
            (-b + cx, a + cy),
            (b + cx, -a + cy),
            (-b + cx, -a + cy),
        ] {
            if 0 <= px && px < WIDTH && 0 <= py && py < HEIGHT {
                out.push((px, py));
            }
        }
        y1 += 1.0;
        t1 += y1;
        let t2 = t1 - x1;
        if t2 >= 0.0 {
            t1 = t2;
            x1 -= 1.0;
        }
    }
    out.sort();
    out.dedup();
    out
}

#[test]
fn circle_follows_the_float_accumulator() {
    for radius in -3..=120 {
        for (cx, cy) in [(55, 50), (0, 0), (110, 100), (-20, 40), (60, 130)] {
            assert_eq!(drawn(cx, cy, radius), stepped(cx, cy, radius), "radius {radius}");
        }
    }
}

#[test]
fn circle_of_a_large_radius_passes_by() {
    let mut frame = blank();
    Circle::new(Point::new(55, -9950), 10000, Rgba::from_u8(1, 2, 3, 4)).draw(&mut frame);
    let top = lit(&frame);
    assert!(!top.is_empty());
    assert!(top.iter().all(|p| p.1 >= 49 && p.1 <= 50));
    assert!(top.contains(&(55, 50)));
}
