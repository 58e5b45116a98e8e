//! The bounding box of a walk: the smallest axis-aligned box that holds the
//! origin, where every walk starts, and each vertex the turtle reached.

use vstd::prelude::*;
use crate::turtle::{vertices, Point, Vertex};

verus! {

/// An axis-aligned box on the lattice, as a mathematical value. Ordinates are
/// counted in rows and abscissas in halves, as in [`Vertex`].
pub struct Extent {
    pub max_y_rows: int,
    pub max_x_halves: int,
    pub min_y_rows: int,
    pub min_x_halves: int,
}

/// An axis-aligned box on the lattice. Ordinates are counted in rows and
/// abscissas in halves, as in [`Point`].
#[derive(Copy, Clone, Debug, PartialEq, Eq, Structural)]
pub struct Bounds {
    pub max_y_rows: i128,
    pub max_x_halves: i128,
    pub min_y_rows: i128,
    pub min_x_halves: i128,
}

impl View for Bounds {
    type V = Extent;

    open spec fn view(&self) -> Extent {
        Extent {
            max_y_rows: self.max_y_rows as int,
            max_x_halves: self.max_x_halves as int,
            min_y_rows: self.min_y_rows as int,
            min_x_halves: self.min_x_halves as int,
        }
    }
}

impl Extent {
    /// The box that holds the origin and nothing else.
    pub open spec fn origin() -> Extent {
        Extent { max_y_rows: 0, max_x_halves: 0, min_y_rows: 0, min_x_halves: 0 }
    }

    /// Whether `v` lies in the box, its border included.
    pub open spec fn holds(self, v: Vertex) -> bool {
        &&& self.min_x_halves <= v.x_halves <= self.max_x_halves
        &&& self.min_y_rows <= v.y_rows <= self.max_y_rows
    }

    /// The box widened just enough to hold `v` as well.
    pub open spec fn widened(self, v: Vertex) -> Extent {
        Extent {
            max_y_rows: if v.y_rows > self.max_y_rows { v.y_rows } else { self.max_y_rows },
            max_x_halves: if v.x_halves > self.max_x_halves { v.x_halves } else { self.max_x_halves },
            min_y_rows: if v.y_rows < self.min_y_rows { v.y_rows } else { self.min_y_rows },
            min_x_halves: if v.x_halves < self.min_x_halves { v.x_halves } else { self.min_x_halves },
        }
    }

    /// Whether the whole of `inner` lies in the box.
    pub open spec fn encloses(self, inner: Extent) -> bool {
        &&& self.min_x_halves <= inner.min_x_halves
        &&& inner.max_x_halves <= self.max_x_halves
        &&& self.min_y_rows <= inner.min_y_rows
        &&& inner.max_y_rows <= self.max_y_rows
    }
}

/// The box of a walk through `points`: the origin's box, widened by each
/// vertex in turn.
pub open spec fn extent(points: Seq<Vertex>) -> Extent
    decreases points.len(),
{
    if points.len() == 0 {
        Extent::origin()
    } else {
        extent(points.drop_last()).widened(points.last())
    }
}

/// The box of a walk holds the origin and every vertex of the walk.
pub proof fn lemma_extent_holds(points: Seq<Vertex>)
    ensures
        extent(points).min_x_halves <= 0 <= extent(points).max_x_halves,
        extent(points).min_y_rows <= 0 <= extent(points).max_y_rows,
        forall|i: int| 0 <= i < points.len() ==> extent(points).holds(#[trigger] points[i]),
    decreases points.len(),
{
    if points.len() > 0 {
        lemma_extent_holds(points.drop_last());
        assert forall|i: int| 0 <= i < points.len() implies extent(points).holds(
            #[trigger] points[i],
        ) by {
            if i < points.len() - 1 {
                assert(points.drop_last()[i] == points[i]);
            }
        }
    }
}

/// The box of a walk is the smallest such box: any box that holds the origin
/// and every vertex of the walk encloses it.
pub proof fn lemma_extent_least(points: Seq<Vertex>, other: Extent)
    requires
        other.holds(Vertex { x_halves: 0, y_rows: 0 }),
        forall|i: int| 0 <= i < points.len() ==> other.holds(#[trigger] points[i]),
    ensures
        other.encloses(extent(points)),
    decreases points.len(),
{
    if points.len() > 0 {
        assert forall|i: int| 0 <= i < points.drop_last().len() implies other.holds(
            #[trigger] points.drop_last()[i],
        ) by {
            assert(points.drop_last()[i] == points[i]);
        }
        lemma_extent_least(points.drop_last(), other);
        assert(other.holds(points[points.len() - 1]));
    }
}

impl Bounds {
    /// The box that holds the origin and nothing else.
    pub fn origin() -> (r: Self)
        ensures
            r@ == Extent::origin(),
    {
        Bounds { max_y_rows: 0, max_x_halves: 0, min_y_rows: 0, min_x_halves: 0 }
    }

    /// The box widened just enough to hold `p` as well.
    pub fn widened(self, p: Point) -> (r: Self)
        ensures
            r@ == self@.widened(p@),
    {
        Bounds {
            max_y_rows: if p.y_rows > self.max_y_rows { p.y_rows } else { self.max_y_rows },
            max_x_halves: if p.x_halves > self.max_x_halves { p.x_halves } else { self.max_x_halves },
            min_y_rows: if p.y_rows < self.min_y_rows { p.y_rows } else { self.min_y_rows },
            min_x_halves: if p.x_halves < self.min_x_halves { p.x_halves } else { self.min_x_halves },
        }
    }

    /// The box of a walk through `points`. With no point at all it is the
    /// origin's box.
    pub fn of(points: &[Point]) -> (r: Self)
        ensures
            r@ == extent(vertices(points@)),
            r@.holds(Vertex { x_halves: 0, y_rows: 0 }),
            forall|i: int| 0 <= i < points@.len() ==> r@.holds(#[trigger] points@[i]@),
    {
        let mut bounds = Bounds::origin();
        let mut i: usize = 0;
        while i < points.len()
            invariant
                i <= points@.len(),
                bounds@ == extent(vertices(points@.take(i as int))),
            decreases points@.len() - i,
        {
            proof {
                let seen = points@.take(i as int);
                let next = points@.take(i + 1);
                assert(next =~= seen.push(points@[i as int]));
                assert(vertices(next).drop_last() =~= vertices(seen));
            }
            bounds = bounds.widened(points[i]);
            i += 1;
        }
        proof {
            assert(points@.take(i as int) =~= points@);
            lemma_extent_holds(vertices(points@));
            assert forall|i: int| 0 <= i < points@.len() implies bounds@.holds(
                #[trigger] points@[i]@,
            ) by {
                assert(vertices(points@)[i] == points@[i]@);
            }
        }
        bounds
    }
}

} // verus!
