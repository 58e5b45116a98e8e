//! The turtle that walks a symbol sequence over the triangular lattice.
//!
//! Every vertex the turtle can reach has an abscissa that is a multiple of one
//! half and an ordinate that is a multiple of the row height `sqrt(3/4)`.
//! Positions are therefore kept as two integers, which is exact: the abscissa
//! counted in halves and the ordinate counted in rows.

use vstd::prelude::*;
use vstd::pervasive::unreached;
use vstd::slice::slice_to_vec;
use crate::rewrite::draw_count;
use crate::symbol::Node;

verus! {

/// A vertex of the triangular lattice, as a mathematical value. Its Cartesian
/// coordinates are `x_halves / 2` and `y_rows * sqrt(3/4)`.
pub struct Vertex {
    pub x_halves: int,
    pub y_rows: int,
}

/// A vertex of the triangular lattice, as the turtle hands it out. Its
/// Cartesian coordinates are `x_halves / 2` and `y_rows * sqrt(3/4)`.
#[derive(Copy, Clone, Debug, PartialEq, Eq, Structural)]
pub struct Point {
    pub x_halves: i128,
    pub y_rows: i128,
}

impl View for Point {
    type V = Vertex;

    open spec fn view(&self) -> Vertex {
        Vertex { x_halves: self.x_halves as int, y_rows: self.y_rows as int }
    }
}

/// The heading after one symbol: a left turn adds sixty degrees, a right turn
/// takes them away, a draw keeps the heading.
pub open spec fn turned(heading: int, node: Node) -> int {
    match node {
        Node::L => (heading + 1) % 6,
        Node::R => (heading + 5) % 6,
        _ => heading,
    }
}

/// The unit step in each of the six headings, counter-clockwise from east.
pub open spec fn stride(heading: int) -> Vertex {
    if heading == 0 {
        Vertex { x_halves: 2, y_rows: 0 }
    } else if heading == 1 {
        Vertex { x_halves: 1, y_rows: 1 }
    } else if heading == 2 {
        Vertex { x_halves: -1, y_rows: 1 }
    } else if heading == 3 {
        Vertex { x_halves: -2, y_rows: 0 }
    } else if heading == 4 {
        Vertex { x_halves: -1, y_rows: -1 }
    } else {
        Vertex { x_halves: 1, y_rows: -1 }
    }
}

/// The heading of a turtle that started facing east and has read `nodes`.
pub open spec fn heading_after(nodes: Seq<Node>) -> int
    decreases nodes.len(),
{
    if nodes.len() == 0 {
        0
    } else {
        turned(heading_after(nodes.drop_last()), nodes.last())
    }
}

/// The position of a turtle that started at the origin, facing east, and has
/// read `nodes`.
pub open spec fn position_after(nodes: Seq<Node>) -> Vertex
    decreases nodes.len(),
{
    if nodes.len() == 0 {
        Vertex { x_halves: 0, y_rows: 0 }
    } else if nodes.last().draws() {
        let before = position_after(nodes.drop_last());
        let step = stride(heading_after(nodes.drop_last()));
        Vertex {
            x_halves: before.x_halves + step.x_halves,
            y_rows: before.y_rows + step.y_rows,
        }
    } else {
        position_after(nodes.drop_last())
    }
}

/// The vertices the turtle reaches while reading `nodes`: one for each draw,
/// in the order of the draws. The origin, where it starts, is not among them.
pub open spec fn trace(nodes: Seq<Node>) -> Seq<Vertex>
    decreases nodes.len(),
{
    if nodes.len() == 0 {
        Seq::empty()
    } else if nodes.last().draws() {
        trace(nodes.drop_last()).push(position_after(nodes))
    } else {
        trace(nodes.drop_last())
    }
}

/// A heading is always one of the six directions.
pub proof fn lemma_heading_range(nodes: Seq<Node>)
    ensures
        0 <= heading_after(nodes) < 6,
    decreases nodes.len(),
{
    if nodes.len() > 0 {
        lemma_heading_range(nodes.drop_last());
    }
}

/// The turtle moves at most one unit per symbol.
pub proof fn lemma_position_bounded(nodes: Seq<Node>)
    ensures
        -2 * nodes.len() <= position_after(nodes).x_halves <= 2 * nodes.len(),
        -nodes.len() <= position_after(nodes).y_rows <= nodes.len(),
    decreases nodes.len(),
{
    if nodes.len() > 0 {
        lemma_position_bounded(nodes.drop_last());
    }
}

/// The trace holds exactly one vertex for each draw.
pub proof fn lemma_trace_len(nodes: Seq<Node>)
    ensures
        trace(nodes).len() == draw_count(nodes),
    decreases nodes.len(),
{
    reveal_with_fuel(Seq::filter, 1);
    if nodes.len() > 0 {
        lemma_trace_len(nodes.drop_last());
    }
}

/// What the turtle has reached after a prefix of the symbols is a prefix of
/// what it reaches in the end.
pub proof fn lemma_trace_prefix(nodes: Seq<Node>, n: int)
    requires
        0 <= n <= nodes.len(),
    ensures
        draw_count(nodes.take(n)) <= draw_count(nodes),
        trace(nodes.take(n)) == trace(nodes).take(draw_count(nodes.take(n)) as int),
    decreases nodes.len(),
{
    lemma_trace_len(nodes);
    if n == nodes.len() {
        assert(nodes.take(n) =~= nodes);
        assert(trace(nodes).take(trace(nodes).len() as int) =~= trace(nodes));
    } else {
        let front = nodes.drop_last();
        assert(nodes.take(n) =~= front.take(n));
        lemma_trace_prefix(front, n);
        lemma_trace_len(front);
        let k = draw_count(front.take(n)) as int;
        assert(trace(nodes).take(k) =~= trace(front).take(k));
    }
}

/// The vertices that a sequence of points stands for.
pub open spec fn vertices(points: Seq<Point>) -> Seq<Vertex> {
    points.map_values(|p: Point| p@)
}

/// Point sequences that stand for the same vertices are the same, point for
/// point.
pub proof fn lemma_vertices_injective(a: Seq<Point>, b: Seq<Point>)
    requires
        vertices(a) == vertices(b),
    ensures
        a == b,
{
    assert(a.len() == vertices(a).len() && b.len() == vertices(b).len());
    assert forall|i: int| 0 <= i < a.len() implies a[i] == b[i] by {
        assert(vertices(a)[i] == a[i]@ && vertices(b)[i] == b[i]@);
    }
    assert(a =~= b);
}

/// Where the turtle stands: how many symbols it has read, its heading, and its
/// position.
#[derive(Copy, Clone)]
struct Turtle {
    idx: usize,
    dir: u8,
    x: i128,
    y: i128,
}

/// A walk over a symbol sequence that hands out, one at a time, the vertices
/// the turtle reaches. Its view is the vertices still to come.
pub struct Points {
    nodes: Vec<Node>,
    turtle: Turtle,
}

impl View for Points {
    type V = Seq<Vertex>;

    open spec fn view(&self) -> Seq<Vertex> {
        trace(self.nodes()).skip(self.emitted() as int)
    }
}

impl Points {
    #[verifier::type_invariant]
    spec fn inv(&self) -> bool {
        let read = self.nodes@.take(self.turtle.idx as int);
        &&& self.turtle.idx <= self.nodes@.len()
        &&& self.turtle.dir == heading_after(read)
        &&& self.turtle.x == position_after(read).x_halves
        &&& self.turtle.y == position_after(read).y_rows
    }

    /// The symbols this walk goes over.
    pub closed spec fn nodes(&self) -> Seq<Node> {
        self.nodes@
    }

    /// How many vertices the walk has handed out so far.
    pub closed spec fn emitted(&self) -> nat {
        draw_count(self.nodes@.take(self.turtle.idx as int))
    }

    /// A fresh walk over a copy of `nodes`: the turtle is at the origin and
    /// faces east, and the whole trace is still to come.
    pub fn from(nodes: &[Node]) -> (r: Self)
        ensures
            r.nodes() == nodes@,
            r.emitted() == 0,
            r@ == trace(nodes@),
    {
        let r = Points {
            nodes: slice_to_vec(nodes),
            turtle: Turtle { idx: 0, dir: 0, x: 0, y: 0 },
        };
        proof {
            assert(r.nodes@.take(0) =~= Seq::<Node>::empty());
            reveal_with_fuel(Seq::filter, 1);
            assert(trace(nodes@).skip(0) =~= trace(nodes@));
        }
        r
    }

    /// Walks on to the next draw and returns the vertex reached, or `None` when
    /// no draw is left. Turns on the way change the heading and yield nothing.
    pub fn next(&mut self) -> (r: Option<Point>)
        ensures
            final(self).nodes() == old(self).nodes(),
            match r {
                Some(p) => {
                    &&& old(self)@.len() > 0
                    &&& p@ == old(self)@.first()
                    &&& final(self)@ == old(self)@.drop_first()
                    &&& final(self).emitted() == old(self).emitted() + 1
                },
                None => old(self)@.len() == 0 && final(self).emitted() == old(self).emitted(),
            },
    {
        loop
            invariant
                self.nodes@ == old(self).nodes@,
                self.emitted() == old(self).emitted(),
            decreases self.nodes@.len() - self.turtle.idx,
        {
            proof {
                use_type_invariant(&*self);
            }
            let Turtle { idx, dir, x, y } = self.turtle;
            if idx >= self.nodes.len() {
                proof {
                    assert(self.nodes@.take(idx as int) =~= self.nodes@);
                    lemma_trace_len(self.nodes@);
                }
                return None;
            }
            let node = self.nodes[idx];
            let ghost read = self.nodes@.take(idx as int);
            let ghost seen = draw_count(read) as int;
            proof {
                assert(self.nodes@.take(idx + 1) =~= read.push(node));
                assert(read.push(node).drop_last() =~= read);
                reveal_with_fuel(Seq::filter, 1);
                lemma_heading_range(read);
                lemma_position_bounded(read);
            }
            let mut nx = x;
            let mut ny = y;
            match node {
                Node::L => {
                    self.turtle = Turtle { idx: idx + 1, dir: (dir + 1) % 6, x, y };
                    continue ;
                },
                Node::R => {
                    self.turtle = Turtle { idx: idx + 1, dir: (dir + 5) % 6, x, y };
                    continue ;
                },
                _ => {
                    match dir {
                        0 => {
                            nx += 2;
                        },
                        1 => {
                            nx += 1;
                            ny += 1;
                        },
                        2 => {
                            nx -= 1;
                            ny += 1;
                        },
                        3 => {
                            nx -= 2;
                        },
                        4 => {
                            nx -= 1;
                            ny -= 1;
                        },
                        5 => {
                            nx += 1;
                            ny -= 1;
                        },
                        _ => unreached(),
                    }
                },
            }
            self.turtle = Turtle { idx: idx + 1, dir, x: nx, y: ny };
            proof {
                lemma_trace_prefix(self.nodes@, idx + 1);
                lemma_trace_len(self.nodes@);
                lemma_trace_len(read);
                let all = trace(self.nodes@);
                let walked = read.push(node);
                assert(self.nodes@.take(idx + 1) == walked);
                assert(trace(walked) == trace(read).push(position_after(walked)));
                assert(all.take(seen + 1)[seen] == position_after(walked));
                assert(all.skip(seen + 1) =~= all.skip(seen).drop_first());
            }
            return Some(Point { x_halves: nx, y_rows: ny });
        }
    }
}

/// Walking is repeatable: two walks over the same symbols that have handed out
/// equally many vertices have the same vertices still to come. Two fresh
/// walks over the same symbols therefore hand out the same vertices.
pub proof fn lemma_walks_agree(a: Points, b: Points)
    requires
        a.nodes() == b.nodes(),
        a.emitted() == b.emitted(),
    ensures
        a@ == b@,
{
}

} // verus!
