//! Closed polygon outlines.

use vstd::prelude::*;

use crate::draw::line::{line_trace, Line};
use crate::raster::{frame_len, lemma_paint_concat, paint, Plot};
use crate::{Drawable, Point, Rgba};

verus! {

/// A closed outline through its vertices, in the order given.
pub struct Polygon {
    points: Vec<Point>,
    c: Rgba,
}

impl Polygon {
    pub fn new(points: Vec<Point>, c: Rgba) -> (polygon: Polygon)
        ensures
            polygon.vertices() == points@,
            polygon.ink() == c,
    {
        Polygon { points, c }
    }

    /// The vertices of the outline.
    pub closed spec fn vertices(&self) -> Seq<Point> {
        self.points@
    }

    /// The colour in which the outline is drawn.
    pub closed spec fn ink(&self) -> Rgba {
        self.c
    }
}

/// The vertex that follows vertex `i` on the outline: the next one, and after the
/// last the first again.
pub open spec fn successor(vertices: Seq<Point>, i: int) -> Point {
    if i + 1 < vertices.len() {
        vertices[i + 1]
    } else {
        vertices[0]
    }
}

/// The edges of the outline, one for each vertex: the line from it to its successor.
pub open spec fn polygon_edges(vertices: Seq<Point>, rgba: (u8, u8, u8, u8)) -> Seq<Seq<Plot>> {
    Seq::new(vertices.len(), |i: int| line_trace(vertices[i], successor(vertices, i), rgba))
}

/// The pixel writes of a polygon: those of its edges, one edge after the other, the
/// closing edge from the last vertex back to the first at the end. Without vertices
/// there is no edge and no write.
pub open spec fn polygon_trace(vertices: Seq<Point>, rgba: (u8, u8, u8, u8)) -> Seq<Plot> {
    polygon_edges(vertices, rgba).flatten()
}

impl Drawable for Polygon {
    open spec fn trace(&self) -> Seq<Plot> {
        polygon_trace(self.vertices(), self.ink()@)
    }

    /// Draws a line from each vertex to the next, then the line from the last vertex
    /// back to the first.
    fn draw(&self, frame: &mut [u8]) {
        let n = self.points.len();
        let ghost before = frame@;
        let ghost edges = polygon_edges(self.points@, self.c@);
        if n == 0 {
            return;
        }
        assert(edges.take(0) =~= Seq::<Seq<Plot>>::empty());
        let mut i: usize = 0;
        while i + 1 < n
            invariant
                frame@.len() == frame_len(),
                n == self.points.len(),
                0 <= i < n,
                edges == polygon_edges(self.points@, self.c@),
                frame@ == paint(before, edges.take(i as int).flatten()),
            decreases n - i,
        {
            let pt1 = self.points[i];
            let pt2 = self.points[i + 1];
            let line = Line::new(Point::new(pt1.x, pt1.y), Point::new(pt2.x, pt2.y), self.c);
            line.draw(frame);
            proof {
                lemma_paint_concat(before, edges.take(i as int).flatten(), edges[i as int]);
                edges.take(i as int).lemma_flatten_push(edges[i as int]);
                assert(edges.take(i as int).push(edges[i as int]) =~= edges.take(i + 1));
            }
            i += 1;
        }
        let line = Line::new(self.points[n - 1], self.points[0], self.c);
        line.draw(frame);
        proof {
            lemma_paint_concat(before, edges.take(i as int).flatten(), edges[i as int]);
            edges.take(i as int).lemma_flatten_push(edges[i as int]);
            assert(edges.take(i as int).push(edges[i as int]) =~= edges);
        }
    }
}

/// The outline is closed: after the edges between consecutive vertices, a polygon
/// draws the edge from its last vertex back to its first.
pub proof fn lemma_polygon_closes(vertices: Seq<Point>, rgba: (u8, u8, u8, u8))
    requires
        vertices.len() > 0,
    ensures
        polygon_trace(vertices, rgba) == polygon_edges(vertices, rgba).drop_last().flatten()
            + line_trace(vertices.last(), vertices.first(), rgba),
{
    let edges = polygon_edges(vertices, rgba);
    edges.drop_last().lemma_flatten_push(edges.last());
    assert(edges.drop_last().push(edges.last()) =~= edges);
}

} // verus!
