//! A small software rasterizer. Lines, circles, polygons and sprites are drawn
//! straight into a byte buffer that holds `WIDTH` x `HEIGHT` RGBA pixels, top row
//! first, while callers address pixels with the origin at the bottom left.
//!
//! Every shape states what it draws as a sequence of pixel writes (its trace, see
//! [`raster`]); drawing it leaves the frame that painting this trace gives.

use vstd::prelude::*;

pub mod draw;
pub mod picture;
pub mod raster;

use crate::raster::{
    filled, frame_len, holds, in_canvas, lemma_paint_idempotent, lemma_paint_len,
    lemma_paint_on_canvas, offset_of, on_canvas, paint, put, Plot,
};

verus! {

/// Number of pixel columns of the canvas.
pub const WIDTH: i32 = 111;

/// Number of pixel rows of the canvas.
pub const HEIGHT: i32 = 101;

/// Edge of the square, in physical pixels, that shows one canvas pixel on screen.
pub const BOX_SIZE: i32 = 4;

/// Fills the whole frame with the colour `c`.
pub fn clear_background(frame: &mut [u8], c: Rgba)
    requires
        old(frame)@.len() == frame_len(),
    ensures
        final(frame)@ == filled(c@),
{
    for x in 0..WIDTH
        invariant
            frame@.len() == frame_len(),
            forall|px: int, py: int|
                0 <= px < x && 0 <= py < HEIGHT ==> #[trigger] holds(frame@, px, py, c@),
    {
        for y in 0..HEIGHT
            invariant
                frame@.len() == frame_len(),
                0 <= x < WIDTH,
                forall|px: int, py: int|
                    0 <= px < x && 0 <= py < HEIGHT ==> #[trigger] holds(frame@, px, py, c@),
                forall|py: int| 0 <= py < y ==> #[trigger] holds(frame@, x as int, py, c@),
        {
            let ghost entry = frame@;
            pixel(Point::new(x, y), frame, &c);
            assert forall|px: int, py: int|
                0 <= px < WIDTH && 0 <= py < HEIGHT && (px < x || (px == x && py < y))
                    implies #[trigger] holds(frame@, px, py, c@) by {
                assert(holds(entry, px, py, c@));
            }
            assert(holds(frame@, x as int, y as int, c@));
        }
    }
    assert forall|k: int| 0 <= k < frame_len() implies frame@[k] == filled(c@)[k] by {
        let px = (k / 4) % (WIDTH as int);
        let py = HEIGHT - 1 - (k / 4) / (WIDTH as int);
        assert(holds(frame@, px, py, c@));
        assert(k == offset_of(px, py) + k % 4);
    }
    assert(frame@ =~= filled(c@));
}

/// The capability of rendering oneself into a frame. A shape states the pixel writes
/// it makes as its trace; drawing changes the frame by exactly these writes and leaves
/// the shape as it is.
pub trait Drawable {
    /// The pixel writes that drawing makes, in the order in which they are made.
    spec fn trace(&self) -> Seq<Plot>;

    /// Renders the shape into `frame`.
    fn draw(&self, frame: &mut [u8])
        requires
            old(frame)@.len() == frame_len(),
        ensures
            final(frame)@ == paint(old(frame)@, self.trace()),
            final(frame)@.len() == old(frame)@.len(),
    ;
}

/// Drawing never writes off the canvas: the frame keeps its length, and the writes of
/// the shape at points off the canvas leave no mark in it.
pub proof fn lemma_draw_on_canvas<D: Drawable>(shape: D, frame: Seq<u8>)
    ensures
        paint(frame, shape.trace()).len() == frame.len(),
        paint(frame, shape.trace()) == paint(frame, on_canvas(shape.trace())),
{
    lemma_paint_len(frame, shape.trace());
    lemma_paint_on_canvas(frame, shape.trace());
}

/// Drawing is idempotent: drawing a shape into a frame into which it was drawn already
/// changes nothing.
pub proof fn lemma_draw_idempotent<D: Drawable>(shape: D, frame: Seq<u8>)
    ensures
        paint(paint(frame, shape.trace()), shape.trace()) == paint(frame, shape.trace()),
{
    lemma_paint_idempotent(frame, shape.trace());
}

/// Draws `shape` into `frame`.
pub fn draw_to_frame<D>(frame: &mut [u8], shape: D) where D: Drawable
    requires
        old(frame)@.len() == frame_len(),
    ensures
        final(frame)@ == paint(old(frame)@, shape.trace()),
        final(frame)@.len() == old(frame)@.len(),
{
    shape.draw(frame);
}

/// A position in logical coordinates: `x` grows to the right, `y` grows upward.
#[derive(Clone, Copy)]
pub struct Point {
    pub x: i32,
    pub y: i32,
}

impl Point {
    pub fn new(x: i32, y: i32) -> (p: Self)
        ensures
            p.x == x,
            p.y == y,
    {
        Self { x, y }
    }
}

/// A colour of four 8-bit channels.
#[derive(Copy, Clone)]
pub struct Rgba {
    r: u8,
    g: u8,
    b: u8,
    a: u8,
}

impl View for Rgba {
    type V = (u8, u8, u8, u8);

    /// The channels in the order red, green, blue, alpha.
    closed spec fn view(&self) -> (u8, u8, u8, u8) {
        (self.r, self.g, self.b, self.a)
    }
}

impl Rgba {
    pub fn from_u8(r: u8, g: u8, b: u8, a: u8) -> (c: Rgba)
        ensures
            c@ == (r, g, b, a),
    {
        Rgba { r, g, b, a }
    }

    /// The colour of one pixel as it lies in a frame.
    pub fn from_pixel(pixel: [u8; 4]) -> (c: Rgba)
        ensures
            c@ == (pixel@[0], pixel@[1], pixel@[2], pixel@[3]),
    {
        Rgba { r: pixel[0], g: pixel[1], b: pixel[2], a: pixel[3] }
    }

    /// The four bytes that a pixel of this colour occupies in a frame.
    pub fn to_pixel(&self) -> (pixel: [u8; 4])
        ensures
            pixel@ == seq![self@.0, self@.1, self@.2, self@.3],
    {
        [self.r, self.g, self.b, self.a]
    }
}

/// Byte offset of the pixel in column `x` of buffer row `y` (rows counted from the top).
fn get_pixel_index(x: i32, y: i32) -> (i: usize)
    requires
        0 <= x < WIDTH,
        0 <= y < HEIGHT,
    ensures
        i == (y * WIDTH + x) * 4,
        i + 4 <= frame_len(),
{
    (((y * WIDTH) + x) * 4) as usize
}

/// Writes colour `c` at `pt`: the four bytes of the pixel are overwritten, nothing is
/// blended. A point off the canvas is dropped, and the frame stays as it is.
pub fn pixel(pt: Point, frame: &mut [u8], c: &Rgba)
    requires
        old(frame)@.len() == frame_len(),
    ensures
        final(frame)@ == put(old(frame)@, Plot { x: pt.x as int, y: pt.y as int, rgba: c@ }),
        !in_canvas(pt.x as int, pt.y as int) ==> final(frame)@ == old(frame)@,
{
    let x = pt.x;
    let y = pt.y;
    if (x < 0) || (y < 0) || (x >= WIDTH) || (y >= HEIGHT) {
        assert(frame@ =~= put(frame@, Plot { x: x as int, y: y as int, rgba: c@ }));
        return;
    }
    // The frame holds the top row first.
    let y = HEIGHT - y - 1;

    let i = get_pixel_index(x, y);
    let bytes = c.to_pixel();
    frame[i] = bytes[0];
    frame[i + 1] = bytes[1];
    frame[i + 2] = bytes[2];
    frame[i + 3] = bytes[3];
    assert(frame@ =~= put(old(frame)@, Plot { x: pt.x as int, y: pt.y as int, rgba: c@ }));
}

/// Writes colour `c` at the point (`x`, `y`), whose coordinates were computed in 64
/// bits. A point that no `Point` can hold lies off the canvas and is dropped too.
pub(crate) fn pixel_at(x: i64, y: i64, frame: &mut [u8], c: &Rgba)
    requires
        old(frame)@.len() == frame_len(),
    ensures
        final(frame)@ == put(old(frame)@, Plot { x: x as int, y: y as int, rgba: c@ }),
{
    if x < i32::MIN as i64 || x > i32::MAX as i64 || y < i32::MIN as i64 || y > i32::MAX as i64 {
        assert(frame@ =~= put(frame@, Plot { x: x as int, y: y as int, rgba: c@ }));
        return;
    }
    pixel(Point::new(x as i32, y as i32), frame, c);
}

} // verus!
