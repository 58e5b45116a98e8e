//! The alphabet of the curve and its two productions.

use vstd::prelude::*;

verus! {

/// One symbol of the curve. `A` and `B` both draw one unit segment and differ
/// only in how they are rewritten; `L` and `R` turn by sixty degrees.
#[derive(Copy, Clone, Debug, PartialEq, Eq, Structural)]
pub enum Node {
    A,
    B,
    L,
    R,
}

impl Node {
    /// Whether the symbol moves the turtle, as opposed to turning it.
    pub open spec fn draws(self) -> bool {
        self is A || self is B
    }
}

/// What replaces `A` in the next generation.
pub const NEXT_A: [Node; 15] = [
    Node::A, Node::L, Node::B, Node::L, Node::L, Node::B, Node::R, Node::A,
    Node::R, Node::R, Node::A, Node::A, Node::R, Node::B, Node::L,
];

/// What replaces `B` in the next generation.
pub const NEXT_B: [Node; 15] = [
    Node::R, Node::A, Node::L, Node::B, Node::B, Node::L, Node::L, Node::B,
    Node::L, Node::A, Node::R, Node::R, Node::A, Node::R, Node::B,
];

/// The production of a symbol: fifteen symbols for a drawing symbol, the
/// symbol itself for a turn.
pub open spec fn production(node: Node) -> Seq<Node> {
    match node {
        Node::A => NEXT_A@,
        Node::B => NEXT_B@,
        _ => seq![node],
    }
}

} // verus!
