//! The curve itself: a symbol sequence that starts as the seed and changes
//! only by being rewritten as a whole.

use vstd::prelude::*;
use vstd::arithmetic::power::pow;
use crate::bounds::{extent, lemma_extent_holds, Bounds};
use crate::rewrite::{
    draw_count, generation, lemma_generation_injective, lemma_generation_segments, rewrite, seed,
};
use crate::symbol::{production, Node, NEXT_A, NEXT_B};
use crate::turtle::{lemma_trace_len, trace, vertices, Point, Points, Vertex};

verus! {

/// Why no curve was produced.
#[derive(Copy, Clone, Debug, PartialEq, Eq, Structural)]
pub enum CurveError {
    /// The number of generations asked for was below zero.
    NegativeGenerations,
}

/// One generation of the curve. Its view is its symbol sequence.
#[derive(Debug)]
pub struct Curve(Vec<Node>);

impl View for Curve {
    type V = Seq<Node>;

    closed spec fn view(&self) -> Seq<Node> {
        self.0@
    }
}

impl Clone for Curve {
    fn clone(&self) -> (r: Self)
        ensures
            r@ == self@,
    {
        proof {
            use_type_invariant(self);
        }
        let nodes = self.0.clone();
        assert(nodes@ =~= self.0@);
        Curve(nodes)
    }
}

impl Curve {
    #[verifier::type_invariant]
    spec fn inv(&self) -> bool {
        exists|n: nat| self.0@ == generation(n)
    }

    /// How many times the seed was rewritten to arrive at this curve.
    pub closed spec fn depth(&self) -> nat {
        choose|n: nat| self.0@ == generation(n)
    }

    /// The seed: a single `A`, not yet rewritten.
    pub fn new() -> (r: Self)
        ensures
            r@ == seed(),
            r.depth() == 0,
    {
        let nodes = vec![Node::A];
        proof {
            assert(nodes@ =~= generation(0));
            lemma_generation_injective(0, choose|n: nat| nodes@ == generation(n));
        }
        Curve(nodes)
    }

    /// The next generation: every symbol replaced by its production, in order.
    pub fn next(self) -> (r: Self)
        ensures
            r@ == rewrite(self@),
            r.depth() == self.depth() + 1,
    {
        proof {
            use_type_invariant(&self);
        }
        let len = self.0.len();
        // A generation is a little over seven times as long as the one before.
        let mut next: Vec<Node> = Vec::with_capacity(if len <= usize::MAX / 8 { 8 * len } else { 0 });
        let mut i: usize = 0;
        while i < len
            invariant
                len == self.0@.len(),
                i <= len,
                next@ == rewrite(self.0@.take(i as int)),
            decreases len - i,
        {
            let node = self.0[i];
            let ghost before = next@;
            match node {
                Node::A => next.extend_from_slice(&NEXT_A),
                Node::B => next.extend_from_slice(&NEXT_B),
                _ => next.push(node),
            }
            proof {
                assert(self.0@.take(i + 1).drop_last() =~= self.0@.take(i as int));
                assert(next@ =~= before + production(node));
            }
            i += 1;
        }
        proof {
            assert(self.0@.take(len as int) =~= self.0@);
            assert(next@ == generation(self.depth() + 1));
            lemma_generation_injective(
                self.depth() + 1,
                choose|n: nat| next@ == generation(n),
            );
        }
        Curve(next)
    }

    /// The number of segments the curve draws: its `A`s and `B`s, of which the
    /// `n`-th generation has `7^n`.
    pub fn segments(&self) -> (n: usize)
        ensures
            n == draw_count(self@),
            n == pow(7, self.depth()),
    {
        proof {
            use_type_invariant(self);
            lemma_generation_segments(self.depth());
        }
        let mut n: usize = 0;
        let mut i: usize = 0;
        while i < self.0.len()
            invariant
                i <= self.0@.len(),
                n == draw_count(self.0@.take(i as int)),
                n <= i,
            decreases self.0@.len() - i,
        {
            proof {
                assert(self.0@.take(i + 1).drop_last() =~= self.0@.take(i as int));
                reveal_with_fuel(Seq::filter, 1);
            }
            match self.0[i] {
                Node::A => n += 1,
                Node::B => n += 1,
                _ => (),
            }
            i += 1;
        }
        proof {
            assert(self.0@.take(i as int) =~= self.0@);
        }
        n
    }

    /// The symbols of the curve, in order. They are those of the generation
    /// that [`Curve::depth`] names.
    pub fn nodes(&self) -> (r: &[Node])
        ensures
            r@ == self@,
            self@ == generation(self.depth()),
    {
        proof {
            use_type_invariant(self);
        }
        self.0.as_slice()
    }

    /// The vertices a turtle reaches when it walks the curve from the origin:
    /// one for each segment, in order.
    pub fn points(&self) -> (r: Vec<Point>)
        ensures
            vertices(r@) == trace(self@),
            r@.len() == draw_count(self@),
    {
        let mut walk = Points::from(self.nodes());
        let mut points: Vec<Point> = Vec::new();
        let ghost all = trace(self@);
        loop
            invariant
                all == trace(self@),
                walk@.len() <= all.len(),
                walk@ == all.skip(all.len() - walk@.len()),
                vertices(points@) == all.take(all.len() - walk@.len()),
            decreases walk@.len(),
        {
            let ghost done = all.len() - walk@.len();
            match walk.next() {
                Some(p) => {
                    let ghost before = points@;
                    points.push(p);
                    proof {
                        assert(vertices(points@) =~= vertices(before).push(p@));
                        assert(all.take(done + 1) =~= all.take(done).push(all[done]));
                    }
                },
                None => {
                    proof {
                        assert(all.take(all.len() as int) =~= all);
                        lemma_trace_len(self@);
                        assert(vertices(points@).len() == points@.len());
                    }
                    return points;
                },
            }
        }
    }

    /// The bounding box of the walk over the curve: the smallest box that
    /// holds the origin and every vertex the turtle reaches.
    pub fn bounds(&self) -> (r: Bounds)
        ensures
            r@ == extent(trace(self@)),
            r@.holds(Vertex { x_halves: 0, y_rows: 0 }),
            forall|i: int| 0 <= i < trace(self@).len() ==> r@.holds(#[trigger] trace(self@)[i]),
    {
        let mut walk = Points::from(self.nodes());
        let mut bounds = Bounds::origin();
        let ghost all = trace(self@);
        loop
            invariant
                all == trace(self@),
                walk@.len() <= all.len(),
                walk@ == all.skip(all.len() - walk@.len()),
                bounds@ == extent(all.take(all.len() - walk@.len())),
            decreases walk@.len(),
        {
            let ghost done = all.len() - walk@.len();
            match walk.next() {
                Some(p) => {
                    bounds = bounds.widened(p);
                    proof {
                        assert(all.take(done + 1).drop_last() =~= all.take(done));
                    }
                },
                None => {
                    proof {
                        assert(all.take(all.len() as int) =~= all);
                        lemma_extent_holds(all);
                    }
                    return bounds;
                },
            }
        }
    }
}

/// The curve after `n` rewriting steps, or an error if `n` is negative; in
/// that case nothing is rewritten.
pub fn generate(n: i64) -> (r: Result<Curve, CurveError>)
    ensures
        n < 0 ==> r == Err::<Curve, CurveError>(CurveError::NegativeGenerations),
        n >= 0 ==> r is Ok && r->Ok_0@ == generation(n as nat) && r->Ok_0.depth() == n,
{
    if n < 0 {
        return Err(CurveError::NegativeGenerations);
    }
    let mut curve = Curve::new();
    let mut i: i64 = 0;
    while i < n
        invariant
            0 <= i <= n,
            curve@ == generation(i as nat),
            curve.depth() == i,
        decreases n - i,
    {
        curve = curve.next();
        i += 1;
    }
    Ok(curve)
}

} // verus!
