//! The mathematical model of drawing: a frame is the sequence of its bytes, a shape is
//! the sequence of pixel writes it makes, and painting applies the writes in order.

use vstd::prelude::*;

use crate::{HEIGHT, WIDTH};

verus! {

/// Length in bytes of a frame: four bytes for each pixel of the canvas.
pub open spec fn frame_len() -> int {
    WIDTH * HEIGHT * 4
}

/// One pixel write: a position in logical coordinates and the four channels to store.
pub struct Plot {
    pub x: int,
    pub y: int,
    pub rgba: (u8, u8, u8, u8),
}

/// Whether the point lies on the canvas.
pub open spec fn in_canvas(x: int, y: int) -> bool {
    0 <= x < WIDTH && 0 <= y < HEIGHT
}

/// Offset in the frame of the first byte of the pixel at (`x`, `y`). The frame holds
/// the top row first, so logical row `y` is buffer row `HEIGHT - y - 1`.
pub open spec fn offset_of(x: int, y: int) -> int {
    ((HEIGHT - y - 1) * WIDTH + x) * 4
}

/// Whether the write `p` reaches the byte at offset `k`: the point lies on the canvas
/// and `k` is one of the four bytes of its pixel.
pub open spec fn covers(p: Plot, k: int) -> bool {
    in_canvas(p.x, p.y) && offset_of(p.x, p.y) <= k < offset_of(p.x, p.y) + 4
}

/// Channel `j` of a colour: red, green, blue, alpha for 0, 1, 2, 3.
pub open spec fn channel(rgba: (u8, u8, u8, u8), j: int) -> u8 {
    if j == 0 {
        rgba.0
    } else if j == 1 {
        rgba.1
    } else if j == 2 {
        rgba.2
    } else {
        rgba.3
    }
}

/// The frame after one pixel write: the four bytes of the pixel hold the four channels
/// when the point lies on the canvas, and every other byte is as before. Nothing is
/// blended, and a point off the canvas changes nothing.
pub open spec fn put(frame: Seq<u8>, p: Plot) -> Seq<u8> {
    Seq::new(
        frame.len(),
        |k: int|
            if covers(p, k) {
                channel(p.rgba, k - offset_of(p.x, p.y))
            } else {
                frame[k]
            },
    )
}

/// Whether the pixel at (`x`, `y`) of the frame holds the colour `rgba`.
pub open spec fn holds(frame: Seq<u8>, x: int, y: int, rgba: (u8, u8, u8, u8)) -> bool {
    let i = offset_of(x, y);
    frame[i] == rgba.0 && frame[i + 1] == rgba.1 && frame[i + 2] == rgba.2 && frame[i + 3]
        == rgba.3
}

/// The frame of which every pixel holds the colour `rgba`.
pub open spec fn filled(rgba: (u8, u8, u8, u8)) -> Seq<u8> {
    Seq::new(frame_len() as nat, |k: int| channel(rgba, k % 4))
}

/// The frame after the writes of `trace`, applied first to last.
pub open spec fn paint(frame: Seq<u8>, trace: Seq<Plot>) -> Seq<u8>
    decreases trace.len(),
{
    if trace.len() == 0 {
        frame
    } else {
        put(paint(frame, trace.drop_last()), trace.last())
    }
}

/// Painting `trace` and one more write is painting `trace`, then making that write.
pub proof fn lemma_paint_push(frame: Seq<u8>, trace: Seq<Plot>, p: Plot)
    ensures
        paint(frame, trace.push(p)) == put(paint(frame, trace), p),
{
    assert(trace.push(p).drop_last() =~= trace);
}

/// Painting two traces one after the other is painting their concatenation.
pub proof fn lemma_paint_concat(frame: Seq<u8>, first: Seq<Plot>, second: Seq<Plot>)
    ensures
        paint(frame, first + second) == paint(paint(frame, first), second),
    decreases second.len(),
{
    if second.len() == 0 {
        assert(first + second =~= first);
    } else {
        lemma_paint_concat(frame, first, second.drop_last());
        assert((first + second).drop_last() =~= first + second.drop_last());
    }
}

/// Painting keeps the length of the frame.
pub proof fn lemma_paint_len(frame: Seq<u8>, trace: Seq<Plot>)
    ensures
        paint(frame, trace).len() == frame.len(),
    decreases trace.len(),
{
    if trace.len() > 0 {
        lemma_paint_len(frame, trace.drop_last());
    }
}

/// A write at a point off the canvas is dropped: the frame stays as it is.
pub proof fn lemma_put_off_canvas(frame: Seq<u8>, p: Plot)
    requires
        !in_canvas(p.x, p.y),
    ensures
        put(frame, p) == frame,
{
    assert(put(frame, p) =~= frame);
}

/// Painting writes nowhere but in the pixels of its writes: a byte that no write of
/// the trace covers is as before. A write off the canvas covers no byte.
pub proof fn lemma_paint_untouched(frame: Seq<u8>, trace: Seq<Plot>, k: int)
    requires
        0 <= k < frame.len(),
        forall|i: int| 0 <= i < trace.len() ==> !covers(#[trigger] trace[i], k),
    ensures
        paint(frame, trace)[k] == frame[k],
    decreases trace.len(),
{
    if trace.len() > 0 {
        let head = trace.drop_last();
        assert forall|i: int| 0 <= i < head.len() implies !covers(#[trigger] head[i], k) by {
            assert(head[i] == trace[i]);
        }
        lemma_paint_untouched(frame, head, k);
        lemma_paint_len(frame, head);
        assert(!covers(trace[trace.len() - 1], k));
    }
}

/// The writes of a trace that land on the canvas.
pub open spec fn on_canvas(trace: Seq<Plot>) -> Seq<Plot> {
    trace.filter(|p: Plot| in_canvas(p.x, p.y))
}

/// The writes off the canvas do nothing: painting a trace is painting those of its
/// writes that land on the canvas.
pub proof fn lemma_paint_on_canvas(frame: Seq<u8>, trace: Seq<Plot>)
    ensures
        paint(frame, trace) == paint(frame, on_canvas(trace)),
    decreases trace.len(),
{
    let pred = |p: Plot| in_canvas(p.x, p.y);
    if trace.len() == 0 {
        assert(trace.filter(pred) =~= trace) by {
            reveal(Seq::filter);
        }
    } else {
        let head = trace.drop_last();
        let p = trace.last();
        lemma_paint_on_canvas(frame, head);
        assert(head.push(p) =~= trace);
        head.lemma_filter_push(p, pred);
        if in_canvas(p.x, p.y) {
            lemma_paint_push(frame, head.filter(pred), p);
        } else {
            lemma_put_off_canvas(paint(frame, head), p);
        }
    }
}

/// Index in the trace of the last write that covers the byte at offset `k`, or -1
/// where no write covers it.
pub open spec fn last_writer(trace: Seq<Plot>, k: int) -> int
    decreases trace.len(),
{
    if trace.len() == 0 {
        -1
    } else if covers(trace.last(), k) {
        trace.len() - 1
    } else {
        last_writer(trace.drop_last(), k)
    }
}

/// The last writer is a write of the trace that covers the byte, and there is one
/// whenever any write of the trace covers the byte.
pub proof fn lemma_last_writer(trace: Seq<Plot>, k: int)
    ensures
        -1 <= last_writer(trace, k) < trace.len(),
        last_writer(trace, k) >= 0 ==> covers(trace[last_writer(trace, k)], k),
        forall|i: int|
            0 <= i < trace.len() && covers(#[trigger] trace[i], k) ==> last_writer(trace, k) >= i,
    decreases trace.len(),
{
    if trace.len() > 0 {
        let head = trace.drop_last();
        lemma_last_writer(head, k);
        assert forall|i: int| 0 <= i < trace.len() && covers(#[trigger] trace[i], k) implies
            last_writer(trace, k) >= i by {
            if i < head.len() {
                assert(head[i] == trace[i]);
            }
        }
    }
}

/// The last writer wins: after painting, a byte holds the channel that the last write
/// covering it stores there, and its former value where no write covers it.
pub proof fn lemma_paint_last_writer(frame: Seq<u8>, trace: Seq<Plot>, k: int)
    requires
        0 <= k < frame.len(),
    ensures
        paint(frame, trace)[k] == (if last_writer(trace, k) < 0 {
            frame[k]
        } else {
            let p = trace[last_writer(trace, k)];
            channel(p.rgba, k - offset_of(p.x, p.y))
        }),
    decreases trace.len(),
{
    if trace.len() > 0 {
        let head = trace.drop_last();
        lemma_paint_last_writer(frame, head, k);
        lemma_paint_len(frame, head);
        lemma_last_writer(head, k);
        if !covers(trace.last(), k) && last_writer(head, k) >= 0 {
            assert(head[last_writer(head, k)] == trace[last_writer(head, k)]);
        }
    }
}

/// Painting is idempotent: painting a trace over a frame that was painted with it
/// already changes nothing.
pub proof fn lemma_paint_idempotent(frame: Seq<u8>, trace: Seq<Plot>)
    ensures
        paint(paint(frame, trace), trace) == paint(frame, trace),
{
    let once = paint(frame, trace);
    let twice = paint(once, trace);
    lemma_paint_len(frame, trace);
    lemma_paint_len(once, trace);
    assert forall|k: int| 0 <= k < once.len() implies twice[k] == once[k] by {
        lemma_paint_last_writer(frame, trace, k);
        lemma_paint_last_writer(once, trace, k);
    }
    assert(twice =~= once);
}

/// Two traces in one colour that hold the same writes, in whatever order and however
/// often, paint the same frame.
pub proof fn lemma_paint_same_writes(
    frame: Seq<u8>,
    first: Seq<Plot>,
    second: Seq<Plot>,
    rgba: (u8, u8, u8, u8),
)
    requires
        forall|i: int| 0 <= i < first.len() ==> (#[trigger] first[i]).rgba == rgba,
        forall|i: int| 0 <= i < second.len() ==> (#[trigger] second[i]).rgba == rgba,
        first.to_set() == second.to_set(),
    ensures
        paint(frame, first) == paint(frame, second),
{
    let a = paint(frame, first);
    let b = paint(frame, second);
    lemma_paint_len(frame, first);
    lemma_paint_len(frame, second);
    assert forall|k: int| 0 <= k < frame.len() implies a[k] == b[k] by {
        lemma_paint_last_writer(frame, first, k);
        lemma_paint_last_writer(frame, second, k);
        lemma_last_writer(first, k);
        lemma_last_writer(second, k);
        let w1 = last_writer(first, k);
        let w2 = last_writer(second, k);
        if w1 >= 0 {
            assert(first.to_set().contains(first[w1]));
            assert(second.contains(first[w1]));
            let i2 = choose|i: int| 0 <= i < second.len() && second[i] == first[w1];
            assert(covers(second[i2], k));
        }
        if w2 >= 0 {
            assert(second.to_set().contains(second[w2]));
            assert(first.contains(second[w2]));
            let i1 = choose|i: int| 0 <= i < first.len() && first[i] == second[w2];
            assert(covers(first[i1], k));
        }
    }
    assert(a =~= b);
}

} // verus!
