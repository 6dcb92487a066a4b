//! Circle outlines.

use vstd::prelude::*;

use crate::raster::{frame_len, lemma_paint_concat, lemma_paint_push, paint, put, Plot};
use crate::{pixel_at, Drawable, Point, Rgba};

verus! {

/// The outline of a circle.
pub struct Circle {
    center: Point,
    radius: i32,
    c: Rgba,
}

impl Circle {
    pub fn new(center: Point, radius: i32, c: Rgba) -> (circle: Circle)
        ensures
            circle.center() == center,
            circle.radius() == radius,
            circle.ink() == c,
    {
        Circle { center, radius, c }
    }

    /// The centre of the circle.
    pub closed spec fn center(&self) -> Point {
        self.center
    }

    /// The radius of the circle.
    pub closed spec fn radius(&self) -> i32 {
        self.radius
    }

    /// The colour in which the circle is drawn.
    pub closed spec fn ink(&self) -> Rgba {
        self.c
    }
}

/// The eight writes of one step: the offset (`x`, `y`) from the centre (`cx`, `cy`),
/// mirrored across both axes and across the diagonal.
pub open spec fn octants(cx: int, cy: int, x: int, y: int, rgba: (u8, u8, u8, u8)) -> Seq<Plot> {
    seq![
        Plot { x: x + cx, y: y + cy, rgba },
        Plot { x: -x + cx, y: y + cy, rgba },
        Plot { x: x + cx, y: -y + cy, rgba },
        Plot { x: -x + cx, y: -y + cy, rgba },
        Plot { x: y + cx, y: x + cy, rgba },
        Plot { x: -y + cx, y: x + cy, rgba },
        Plot { x: y + cx, y: -x + cy, rgba },
        Plot { x: -y + cx, y: -x + cy, rgba },
    ]
}

/// The writes of the steps from offset (`x`, `y`) on, while `x >= y`. Each step draws
/// its eight points, moves `y` up by one and adds the new `y` to the decision
/// accumulator; when the accumulator has reached `x`, it gives `x` back and `x` moves
/// in by one. `t` is the accumulator in sixteenths, which keeps it an integer.
pub open spec fn arc(cx: int, cy: int, x: int, y: int, t: int, rgba: (u8, u8, u8, u8)) -> Seq<Plot>
    decreases x - y + 2,
{
    if x < y {
        Seq::empty()
    } else {
        let y_next = y + 1;
        let t_next = t + 16 * y_next;
        let rest = if t_next - 16 * x >= 0 {
            arc(cx, cy, x - 1, y_next, t_next - 16 * x, rgba)
        } else {
            arc(cx, cy, x, y_next, t_next, rgba)
        };
        octants(cx, cy, x, y, rgba) + rest
    }
}

/// The pixel writes of a circle: the stepping starts at offset (`radius`, 0) with the
/// accumulator at `radius / 16`. A negative radius gives no write at all.
pub open spec fn circle_trace(center: Point, radius: int, rgba: (u8, u8, u8, u8)) -> Seq<Plot> {
    arc(center.x as int, center.y as int, radius, 0, radius, rgba)
}

/// Painting a trace of eight writes is making the eight writes in turn.
proof fn lemma_paint_octants(frame: Seq<u8>, step: Seq<Plot>)
    requires
        step.len() == 8,
    ensures
        paint(frame, step) == put(
            put(
                put(
                    put(put(put(put(put(frame, step[0]), step[1]), step[2]), step[3]), step[4]),
                    step[5],
                ),
                step[6],
            ),
            step[7],
        ),
{
    let s0 = Seq::<Plot>::empty();
    let s1 = s0.push(step[0]);
    let s2 = s1.push(step[1]);
    let s3 = s2.push(step[2]);
    let s4 = s3.push(step[3]);
    let s5 = s4.push(step[4]);
    let s6 = s5.push(step[5]);
    let s7 = s6.push(step[6]);
    let s8 = s7.push(step[7]);
    lemma_paint_push(frame, s0, step[0]);
    lemma_paint_push(frame, s1, step[1]);
    lemma_paint_push(frame, s2, step[2]);
    lemma_paint_push(frame, s3, step[3]);
    lemma_paint_push(frame, s4, step[4]);
    lemma_paint_push(frame, s5, step[5]);
    lemma_paint_push(frame, s6, step[6]);
    lemma_paint_push(frame, s7, step[7]);
    assert(s8 =~= step);
}

impl Drawable for Circle {
    open spec fn trace(&self) -> Seq<Plot> {
        circle_trace(self.center(), self.radius() as int, self.ink()@)
    }

    /// Steps through one eighth of the circle, from the point beside the centre to the
    /// diagonal, and draws each step mirrored into all eight.
    fn draw(&self, frame: &mut [u8]) {
        let x: i64 = self.center.x as i64;
        let y: i64 = self.center.y as i64;
        let r: i64 = self.radius as i64;
        // The accumulator counts sixteenths, so that a start at `radius / 16` is exact.
        let mut t1: i64 = r;
        let mut x1: i64 = r;
        let mut y1: i64 = 0;

        let ghost rgba = self.c@;
        let ghost before = frame@;
        let ghost whole = circle_trace(self.center, self.radius as int, rgba);
        let ghost mut done: Seq<Plot> = Seq::empty();
        assert(done + whole =~= whole);
        while x1 >= y1
            invariant
                frame@.len() == frame_len(),
                rgba == self.c@,
                x == self.center.x,
                y == self.center.y,
                r == self.radius,
                x1 <= r,
                0 <= y1,
                r >= 0 ==> -1 <= x1 && y1 <= x1 + 2 && 0 <= t1 <= 16 * r + 16 * (r - x1),
                r < 0 ==> x1 == r && y1 == 0 && t1 == r,
                frame@ == paint(before, done),
                done + arc(x as int, y as int, x1 as int, y1 as int, t1 as int, rgba) == whole,
            decreases x1 - y1 + 2,
        {
            let ghost step = octants(x as int, y as int, x1 as int, y1 as int, rgba);
            let ghost rest = arc(x as int, y as int, x1 as int, y1 as int, t1 as int, rgba);
            let ghost entry = frame@;
            pixel_at(x1 + x, y1 + y, frame, &self.c);
            pixel_at(-x1 + x, y1 + y, frame, &self.c);
            pixel_at(x1 + x, -y1 + y, frame, &self.c);
            pixel_at(-x1 + x, -y1 + y, frame, &self.c);
            pixel_at(y1 + x, x1 + y, frame, &self.c);
            pixel_at(-y1 + x, x1 + y, frame, &self.c);
            pixel_at(y1 + x, -x1 + y, frame, &self.c);
            pixel_at(-y1 + x, -x1 + y, frame, &self.c);
            y1 += 1;
            t1 += 16 * y1;
            let t2 = t1 - 16 * x1;

            if t2 >= 0 {
                t1 = t2;
                x1 -= 1;
            }
            proof {
                let tail = arc(x as int, y as int, x1 as int, y1 as int, t1 as int, rgba);
                assert(rest == step + tail);
                assert(done + (step + tail) =~= (done + step) + tail);
                lemma_paint_octants(entry, step);
                lemma_paint_concat(before, done, step);
                done = done + step;
            }
        }
        proof {
            let tail = arc(x as int, y as int, x1 as int, y1 as int, t1 as int, rgba);
            assert(tail =~= Seq::<Plot>::empty());
            assert(done + tail =~= done);
        }
    }
}

/// A circle of radius 0 makes its eight writes at the centre, which leaves one pixel.
pub proof fn lemma_circle_radius_zero(frame: Seq<u8>, center: Point, rgba: (u8, u8, u8, u8))
    ensures
        circle_trace(center, 0, rgba) == Seq::new(
            8,
            |i: int| Plot { x: center.x as int, y: center.y as int, rgba },
        ),
        paint(frame, circle_trace(center, 0, rgba)) == put(
            frame,
            Plot { x: center.x as int, y: center.y as int, rgba },
        ),
{
    let dot = Plot { x: center.x as int, y: center.y as int, rgba };
    let trace = circle_trace(center, 0, rgba);
    let once = octants(center.x as int, center.y as int, 0, 0, rgba);
    assert(arc(center.x as int, center.y as int, -1, 1, 16, rgba) =~= Seq::<Plot>::empty());
    assert(trace =~= once);
    assert(trace =~= Seq::new(8, |i: int| dot));
    lemma_paint_octants(frame, trace);
    assert(put(put(frame, dot), dot) =~= put(frame, dot));
}

/// A circle of negative radius makes no write.
pub proof fn lemma_circle_negative_radius(center: Point, radius: int, rgba: (u8, u8, u8, u8))
    requires
        radius < 0,
    ensures
        circle_trace(center, radius, rgba) == Seq::<Plot>::empty(),
{
}

} // verus!
