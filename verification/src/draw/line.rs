//! Straight line segments.

use vstd::prelude::*;

use crate::raster::{frame_len, lemma_paint_push, lemma_paint_same_writes, paint, Plot};
use crate::{pixel_at, Drawable, Point, Rgba};

verus! {

/// A straight segment between two points, both of them drawn.
pub struct Line {
    start: Point,
    end: Point,
    c: Rgba,
}

impl Line {
    pub fn new(start: Point, end: Point, c: Rgba) -> (line: Line)
        ensures
            line.start() == start,
            line.end() == end,
            line.ink() == c,
    {
        Line { start, end, c }
    }

    /// A line in opaque black.
    pub fn from_points(start: Point, end: Point) -> (line: Line)
        ensures
            line.start() == start,
            line.end() == end,
            line.ink()@ == (0u8, 0u8, 0u8, 255u8),
    {
        Line { start, end, c: Rgba::from_u8(0, 0, 0, 0xff) }
    }

    /// Replaces the colour of the line.
    pub fn color(&mut self, c: Rgba)
        ensures
            final(self).start() == old(self).start(),
            final(self).end() == old(self).end(),
            final(self).ink() == c,
    {
        self.c = c
    }

    /// The point at which the line starts.
    pub closed spec fn start(&self) -> Point {
        self.start
    }

    /// The point at which the line ends.
    pub closed spec fn end(&self) -> Point {
        self.end
    }

    /// The colour in which the line is drawn.
    pub closed spec fn ink(&self) -> Rgba {
        self.c
    }
}

/// Distance between two coordinates.
pub open spec fn dist(a: int, b: int) -> int {
    if a <= b {
        b - a
    } else {
        a - b
    }
}

/// The coordinate `k` steps after `from` on the way towards `to`.
pub open spec fn advance(from: int, to: int, k: int) -> int {
    if from < to {
        from + k
    } else {
        from - k
    }
}

/// The integer nearest to `num / den`; where two are equally near, the larger one.
pub open spec fn nearest(num: int, den: int) -> int {
    (2 * num + den) / (2 * den)
}

/// Number of steps from `start` to `end`: the distance along the axis on which the
/// two points lie further apart.
pub open spec fn line_steps(start: Point, end: Point) -> int {
    let dx = dist(start.x as int, end.x as int);
    let dy = dist(start.y as int, end.y as int);
    if dx >= dy {
        dx
    } else {
        dy
    }
}

/// The point that the line from `start` to `end` reaches after `k` steps. Each step
/// moves by one along the longer axis; the offset along the shorter axis is the one
/// nearest to the ideal line, and where the ideal line passes midway between two
/// pixels, the one further from `start`.
pub open spec fn line_point(start: Point, end: Point, k: int) -> (int, int) {
    let dx = dist(start.x as int, end.x as int);
    let dy = dist(start.y as int, end.y as int);
    if dx == 0 && dy == 0 {
        (start.x as int, start.y as int)
    } else if dx >= dy {
        (
            advance(start.x as int, end.x as int, k),
            advance(start.y as int, end.y as int, nearest(dy * k, dx)),
        )
    } else {
        (
            advance(start.x as int, end.x as int, nearest(dx * k, dy)),
            advance(start.y as int, end.y as int, k),
        )
    }
}

/// The pixel writes of a line from `start` to `end`: one for each step, from `start`
/// itself to `end` itself.
pub open spec fn line_trace(start: Point, end: Point, rgba: (u8, u8, u8, u8)) -> Seq<Plot> {
    Seq::new(
        (line_steps(start, end) + 1) as nat,
        |k: int| Plot { x: line_point(start, end, k).0, y: line_point(start, end, k).1, rgba },
    )
}

/// `q` is the nearest integer to `num / den` when `num / den + 1/2` lies in `[q, q + 1)`.
/// `dq` stands for the product `den * q`.
proof fn lemma_nearest(num: int, den: int, q: int, dq: int)
    requires
        den > 0,
        dq == den * q,
        2 * dq <= 2 * num + den < 2 * dq + 2 * den,
    ensures
        nearest(num, den) == q,
{
    let r = 2 * num + den - 2 * dq;
    assert(q * (2 * den) == 2 * dq) by (nonlinear_arith)
        requires
            dq == den * q,
    ;
    vstd::arithmetic::div_mod::lemma_fundamental_div_mod_converse(2 * num + den, 2 * den, q, r);
}

impl Drawable for Line {
    open spec fn trace(&self) -> Seq<Plot> {
        line_trace(self.start(), self.end(), self.ink()@)
    }

    /// Steps from the start to the end with a running error term: at each pixel, twice
    /// the error decides whether the next pixel lies one further along x, along y, or
    /// along both.
    fn draw(&self, frame: &mut [u8]) {
        let mut x0: i64 = self.start.x as i64;
        let mut y0: i64 = self.start.y as i64;
        let x1: i64 = self.end.x as i64;
        let y1: i64 = self.end.y as i64;
        let dx: i64 = if x0 < x1 { x1 - x0 } else { x0 - x1 };
        let sx: i64 = if x0 < x1 { 1 } else { -1 };
        let dy: i64 = if y0 < y1 { y0 - y1 } else { y1 - y0 };
        let sy: i64 = if y0 < y1 { 1 } else { -1 };
        let mut error: i64 = dx + dy;

        let ghost start = self.start;
        let ghost end = self.end;
        let ghost whole = line_trace(start, end, self.c@);
        let ghost before = frame@;
        let ghost a: int = dx as int;
        let ghost b: int = -dy as int;
        // Steps taken along each axis, and the products in which the invariant is linear.
        let ghost mut i: int = 0;
        let ghost mut j: int = 0;
        let ghost mut bi: int = 0;
        let ghost mut aj: int = 0;
        assert(whole.take(0) =~= Seq::<Plot>::empty());
        loop
            invariant_except_break
                0 <= i <= a,
                0 <= j <= b,
                bi == b * i,
                aj == a * j,
                x0 == advance(start.x as int, end.x as int, i),
                y0 == advance(start.y as int, end.y as int, j),
                error == a - b - bi + aj,
                a >= b ==> 2 * aj <= 2 * bi + a < 2 * aj + 2 * a || a == 0,
                a < b ==> 2 * bi <= 2 * aj + b < 2 * bi + 2 * b,
                frame@ == paint(before, whole.take(if a >= b { i } else { j })),
            invariant
                frame@.len() == frame_len(),
                start == self.start,
                end == self.end,
                whole == line_trace(start, end, self.c@),
                x1 == end.x,
                y1 == end.y,
                a == dist(start.x as int, end.x as int),
                b == dist(start.y as int, end.y as int),
                a == dx,
                b == -dy,
                0 <= a < 0x1_0000_0000,
                0 <= b < 0x1_0000_0000,
                sx == (if start.x < end.x { 1int } else { -1int }),
                sy == (if start.y < end.y { 1int } else { -1int }),
            ensures
                frame@ == paint(before, whole),
            decreases (a - i) + (b - j),
        {
            let ghost k = if a >= b { i } else { j };
            proof {
                if a == 0 && b == 0 {
                } else if a >= b {
                    lemma_nearest(b * k, a, j, aj);
                } else {
                    lemma_nearest(a * k, b, i, bi);
                }
                assert(line_point(start, end, k) == (x0 as int, y0 as int));
                lemma_paint_push(before, whole.take(k), whole[k]);
                assert(whole.take(k).push(whole[k]) =~= whole.take(k + 1));
            }
            pixel_at(x0, y0, frame, &self.c);
            assert(frame@ == paint(before, whole.take(k + 1)));
            if x0 == x1 && y0 == y1 {
                assert(whole.take(k + 1) =~= whole);
                break;
            }
            proof {
                // Short of the end, the longer axis has steps left.
                if a >= b {
                    assert(i < a) by (nonlinear_arith)
                        requires
                            0 <= i <= a,
                            0 <= j <= b,
                            b <= a,
                            i != a || j != b,
                            bi == b * i,
                            aj == a * j,
                            2 * aj <= 2 * bi + a < 2 * aj + 2 * a,
                    ;
                } else {
                    assert(j < b) by (nonlinear_arith)
                        requires
                            0 <= i <= a,
                            0 <= j <= b,
                            a < b,
                            i != a || j != b,
                            bi == b * i,
                            aj == a * j,
                            2 * bi <= 2 * aj + b < 2 * bi + 2 * b,
                    ;
                }
            }
            let e2 = 2 * error;
            if e2 >= dy {
                if x0 == x1 {
                    proof {
                        if a < b {
                            assert(false) by (nonlinear_arith)
                                requires
                                    i == a,
                                    0 <= a,
                                    0 <= j < b,
                                    bi == b * i,
                                    aj == a * j,
                                    2 * aj + 2 * a >= 2 * bi + b,
                            ;
                        }
                    }
                    break;
                }
                error += dy;
                x0 += sx;
                proof {
                    assert(b * (i + 1) == b * i + b) by (nonlinear_arith);
                    i = i + 1;
                    bi = bi + b;
                }
            }
            if e2 <= dx {
                if y0 == y1 {
                    proof {
                        if a >= b {
                            assert(false) by (nonlinear_arith)
                                requires
                                    j == b,
                                    0 <= b,
                                    0 < i <= a,
                                    bi == b * i,
                                    aj == a * j,
                                    2 * aj + a <= 2 * bi,
                            ;
                        }
                    }
                    break;
                }
                error += dx;
                y0 += sy;
                proof {
                    assert(a * (j + 1) == a * j + a) by (nonlinear_arith);
                    j = j + 1;
                    aj = aj + a;
                }
            }
        }
    }
}

/// A line draws both of its ends: its first write is at `start`, its last at `end`.
pub proof fn lemma_line_ends(start: Point, end: Point, rgba: (u8, u8, u8, u8))
    ensures
        line_trace(start, end, rgba).len() == line_steps(start, end) + 1,
        line_trace(start, end, rgba).first() == (Plot {
            x: start.x as int,
            y: start.y as int,
            rgba,
        }),
        line_trace(start, end, rgba).last() == (Plot { x: end.x as int, y: end.y as int, rgba }),
{
    let dx = dist(start.x as int, end.x as int);
    let dy = dist(start.y as int, end.y as int);
    if dx == 0 && dy == 0 {
    } else if dx >= dy {
        assert(dy * 0 == 0) by (nonlinear_arith);
        lemma_nearest(0, dx, 0, 0);
        assert(dx * dy == dy * dx) by (nonlinear_arith);
        lemma_nearest(dy * dx, dx, dy, dx * dy);
    } else {
        assert(dx * 0 == 0) by (nonlinear_arith);
        lemma_nearest(0, dy, 0, 0);
        assert(dy * dx == dx * dy) by (nonlinear_arith);
        lemma_nearest(dx * dy, dy, dx, dy * dx);
    }
}

/// A line whose two ends are one point draws exactly that point, once.
pub proof fn lemma_line_single_point(p: Point, rgba: (u8, u8, u8, u8))
    ensures
        line_trace(p, p, rgba) == seq![Plot { x: p.x as int, y: p.y as int, rgba }],
{
    assert(line_trace(p, p, rgba) =~= seq![Plot { x: p.x as int, y: p.y as int, rgba }]);
}

/// Whether, `k` steps along the longer axis, an ideal line that covers `short` along
/// the shorter axis and `long` along the longer one passes exactly midway between two
/// pixels.
pub open spec fn midway(short: int, long: int, k: int) -> bool {
    long > 0 && 0 <= k <= long && (2 * (short * k) + long) % (2 * long) == 0
}

/// Whether the ideal line between the two points passes exactly midway between two
/// pixels at step `k`.
pub open spec fn midway_at(start: Point, end: Point, k: int) -> bool {
    let dx = dist(start.x as int, end.x as int);
    let dy = dist(start.y as int, end.y as int);
    if dx >= dy {
        midway(dy, dx, k)
    } else {
        midway(dx, dy, k)
    }
}

/// Whether the ideal line between the two points passes exactly midway between two
/// pixels at some step. Which of the two pixels is drawn there depends on the end at
/// which drawing starts.
pub open spec fn passes_midway(start: Point, end: Point) -> bool {
    exists|k: int| midway_at(start, end, k)
}

/// Seen from the other end, the offset along the shorter axis is the mirrored one,
/// except at a step where the ideal line passes midway: there both directions round
/// away from their own start, and the two offsets are one apart.
proof fn lemma_nearest_mirrored(short: int, long: int, k: int)
    requires
        0 <= short <= long,
        0 < long,
        0 <= k <= long,
    ensures
        !midway(short, long, k) ==> nearest(short * (long - k), long) == short - nearest(
            short * k,
            long,
        ),
        midway(short, long, k) ==> nearest(short * (long - k), long) == short - nearest(
            short * k,
            long,
        ) + 1,
{
    let n = 2 * (short * k) + long;
    let q = n / (2 * long);
    let r = n % (2 * long);
    vstd::arithmetic::div_mod::lemma_fundamental_div_mod(n, 2 * long);
    assert(0 <= r < 2 * long) by {
        vstd::arithmetic::div_mod::lemma_mod_pos_bound(n, 2 * long);
    }
    let m = 2 * (short * (long - k)) + long;
    assert(short * (long - k) == short * long - short * k) by (nonlinear_arith);
    assert((2 * long) * q == 2 * (long * q)) by (nonlinear_arith);
    if r != 0 {
        assert((short - q) * (2 * long) == 2 * (short * long) - 2 * (long * q))
            by (nonlinear_arith);
        vstd::arithmetic::div_mod::lemma_fundamental_div_mod_converse(
            m,
            2 * long,
            short - q,
            2 * long - r,
        );
    } else {
        assert((short - q + 1) * (2 * long) == 2 * (short * long) - 2 * (long * q) + 2 * long)
            by (nonlinear_arith);
        vstd::arithmetic::div_mod::lemma_fundamental_div_mod_converse(
            m,
            2 * long,
            short - q + 1,
            0,
        );
    }
}

/// Away from the steps where the ideal line passes midway between two pixels, the
/// line drawn from the other end goes through the same point.
pub proof fn lemma_line_point_reversed(start: Point, end: Point, k: int)
    requires
        0 <= k <= line_steps(start, end),
        !midway_at(start, end, k),
    ensures
        line_point(end, start, line_steps(start, end) - k) == line_point(start, end, k),
{
    let dx = dist(start.x as int, end.x as int);
    let dy = dist(start.y as int, end.y as int);
    if dx == 0 && dy == 0 {
    } else if dx >= dy {
        lemma_nearest_mirrored(dy, dx, k);
        if dy == 0 {
            assert(dy * k == 0 && dy * (dx - k) == 0) by (nonlinear_arith)
                requires
                    dy == 0,
            ;
        }
    } else {
        lemma_nearest_mirrored(dx, dy, k);
        if dx == 0 {
            assert(dx * k == 0 && dx * (dy - k) == 0) by (nonlinear_arith)
                requires
                    dx == 0,
            ;
        }
    }
}

/// A line drawn from either end goes through the same pixels, in the opposite order,
/// and leaves the same frame, unless the ideal line passes exactly midway between two
/// pixels at some step.
pub proof fn lemma_line_symmetric(
    frame: Seq<u8>,
    start: Point,
    end: Point,
    rgba: (u8, u8, u8, u8),
)
    requires
        !passes_midway(start, end),
    ensures
        line_trace(end, start, rgba) == line_trace(start, end, rgba).reverse(),
        line_trace(end, start, rgba).to_set() == line_trace(start, end, rgba).to_set(),
        paint(frame, line_trace(end, start, rgba)) == paint(frame, line_trace(start, end, rgba)),
{
    let there = line_trace(start, end, rgba);
    let back = line_trace(end, start, rgba);
    let n = line_steps(start, end);
    assert forall|k: int| 0 <= k <= n implies back[n - k] == there[k] by {
        assert(!midway_at(start, end, k));
        lemma_line_point_reversed(start, end, k);
    }
    assert forall|i: int| 0 <= i <= n implies back[i] == there.reverse()[i] by {
        assert(back[n - (n - i)] == there[n - i]);
    }
    assert(back =~= there.reverse());
    assert forall|p: Plot| back.contains(p) <==> there.contains(p) by {
        if back.contains(p) {
            let i = choose|i: int| 0 <= i < back.len() && back[i] == p;
            assert(back[n - (n - i)] == there[n - i]);
        }
        if there.contains(p) {
            let i = choose|i: int| 0 <= i < there.len() && there[i] == p;
            assert(back[n - i] == there[i]);
        }
    }
    assert(back.to_set() =~= there.to_set());
    lemma_paint_same_writes(frame, back, there, rgba);
}

/// Where the ideal line passes exactly midway between two pixels at some step, the
/// line drawn from one end goes through a pixel that the line drawn from the other
/// end leaves out.
pub proof fn lemma_line_asymmetric(start: Point, end: Point, rgba: (u8, u8, u8, u8))
    requires
        passes_midway(start, end),
    ensures
        line_trace(end, start, rgba).to_set() != line_trace(start, end, rgba).to_set(),
{
    let there = line_trace(start, end, rgba);
    let back = line_trace(end, start, rgba);
    let n = line_steps(start, end);
    let dx = dist(start.x as int, end.x as int);
    let dy = dist(start.y as int, end.y as int);
    let k = choose|k: int| midway_at(start, end, k);
    let short = if dx >= dy { dy } else { dx };
    assert(short > 0) by {
        if short == 0 {
            assert(short * k == 0) by (nonlinear_arith)
                requires
                    short == 0,
            ;
            vstd::arithmetic::div_mod::lemma_small_mod(n as nat, (2 * n) as nat);
        }
    }
    lemma_nearest_mirrored(short, n, k);
    assert(there.contains(there[k]));
    assert(!back.contains(there[k])) by {
        assert forall|i: int| 0 <= i <= n implies back[i] != there[k] by {
            if i == n - k {
            }
        }
    }
    assert(there.to_set().contains(there[k]));
    assert(!back.to_set().contains(there[k]));
}

} // verus!
