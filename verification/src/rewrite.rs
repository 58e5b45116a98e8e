//! The substitution that takes one generation of the curve to the next, as a
//! function on symbol sequences, and what it does to the symbol counts.

use vstd::prelude::*;
use vstd::arithmetic::power::{lemma_pow_positive, pow};
use crate::symbol::{production, Node};

verus! {

/// The sequence every curve starts from: a single `A`.
pub open spec fn seed() -> Seq<Node> {
    seq![Node::A]
}

/// One rewriting step: every symbol is replaced by its production, in order.
pub open spec fn rewrite(nodes: Seq<Node>) -> Seq<Node>
    decreases nodes.len(),
{
    if nodes.len() == 0 {
        Seq::empty()
    } else {
        rewrite(nodes.drop_last()) + production(nodes.last())
    }
}

/// The curve after `n` rewriting steps.
pub open spec fn generation(n: nat) -> Seq<Node>
    decreases n,
{
    if n == 0 {
        seed()
    } else {
        rewrite(generation((n - 1) as nat))
    }
}

/// How many symbols of `nodes` draw a segment.
pub open spec fn draw_count(nodes: Seq<Node>) -> nat {
    nodes.filter(|node: Node| node.draws()).len()
}

/// How many symbols of `nodes` are turns.
pub open spec fn turn_count(nodes: Seq<Node>) -> nat {
    nodes.filter(|node: Node| !node.draws()).len()
}

/// Both counts are additive over concatenation.
pub proof fn lemma_counts_concat(a: Seq<Node>, b: Seq<Node>)
    ensures
        draw_count(a + b) == draw_count(a) + draw_count(b),
        turn_count(a + b) == turn_count(a) + turn_count(b),
{
    Seq::filter_distributes_over_add(a, b, |node: Node| node.draws());
    Seq::filter_distributes_over_add(a, b, |node: Node| !node.draws());
}

/// The counts of a single symbol's production: seven draws and eight turns for
/// a drawing symbol, the lone turn for a turn.
pub proof fn lemma_production_counts(node: Node)
    ensures
        production(node).len() == if node.draws() { 15nat } else { 1nat },
        draw_count(production(node)) == if node.draws() { 7nat } else { 0nat },
        turn_count(production(node)) == if node.draws() { 8nat } else { 1nat },
{
    reveal_with_fuel(Seq::filter, 16);
}

/// Rewriting is local and keeps the order: the rewrite of a concatenation is
/// the concatenation of the rewrites.
pub proof fn lemma_rewrite_concat(a: Seq<Node>, b: Seq<Node>)
    ensures
        rewrite(a + b) == rewrite(a) + rewrite(b),
    decreases b.len(),
{
    if b.len() == 0 {
        assert(a + b =~= a);
        assert(rewrite(a) + rewrite(b) =~= rewrite(a));
    } else {
        lemma_rewrite_concat(a, b.drop_last());
        assert((a + b).drop_last() =~= a + b.drop_last());
        assert((a + b).last() == b.last());
        assert(rewrite(a + b) =~= rewrite(a) + rewrite(b));
    }
}

/// One rewriting step multiplies the draws by seven, keeps every turn and adds
/// eight turns for each draw; the sequence grows by fourteen symbols per draw.
pub proof fn lemma_rewrite_counts(nodes: Seq<Node>)
    ensures
        draw_count(rewrite(nodes)) == 7 * draw_count(nodes),
        turn_count(rewrite(nodes)) == turn_count(nodes) + 8 * draw_count(nodes),
        rewrite(nodes).len() == nodes.len() + 14 * draw_count(nodes),
    decreases nodes.len(),
{
    if nodes.len() == 0 {
        assert(draw_count(nodes) == 0 && turn_count(nodes) == 0) by {
            reveal_with_fuel(Seq::filter, 1);
        }
    } else {
        let front = nodes.drop_last();
        let last = nodes.last();
        lemma_rewrite_counts(front);
        lemma_production_counts(last);
        lemma_counts_concat(rewrite(front), production(last));
        assert(nodes =~= front + seq![last]);
        lemma_counts_concat(front, seq![last]);
        assert(draw_count(seq![last]) == if last.draws() { 1nat } else { 0nat }
            && turn_count(seq![last]) == if last.draws() { 0nat } else { 1nat }) by {
            reveal_with_fuel(Seq::filter, 2);
        }
    }
}

/// Every symbol is either a draw or a turn.
pub proof fn lemma_counts_partition(nodes: Seq<Node>)
    ensures
        draw_count(nodes) + turn_count(nodes) == nodes.len(),
    decreases nodes.len(),
{
    reveal_with_fuel(Seq::filter, 1);
    if nodes.len() > 0 {
        lemma_counts_partition(nodes.drop_last());
    }
}

/// Each generation has seven times the draws of the one before it.
pub proof fn lemma_generation_draws(n: nat)
    ensures
        draw_count(generation(n + 1)) == 7 * draw_count(generation(n)),
{
    lemma_rewrite_counts(generation(n));
}

/// Each generation carries over the turns of the one before it and gains eight
/// for each of its draws.
pub proof fn lemma_generation_turns(n: nat)
    ensures
        turn_count(generation(n + 1)) == turn_count(generation(n)) + 8 * draw_count(
            generation(n),
        ),
{
    lemma_rewrite_counts(generation(n));
}

/// At the first step, where the seed holds no turn yet, the turns of the next
/// generation are seven times those of the seed plus eight times its draws.
/// From the second step on the turns are carried over once, not seven times.
pub proof fn lemma_first_generation_turns(n: nat)
    requires
        n == 0,
    ensures
        turn_count(generation(n + 1)) == 7 * turn_count(generation(n)) + 8 * draw_count(
            generation(n),
        ),
{
    lemma_rewrite_counts(generation(n));
    assert(turn_count(seed()) == 0) by {
        reveal_with_fuel(Seq::filter, 2);
    }
}

/// The `n`-th generation draws `7^n` segments.
pub proof fn lemma_generation_segments(n: nat)
    ensures
        draw_count(generation(n)) == pow(7, n),
    decreases n,
{
    reveal(pow);
    if n == 0 {
        assert(draw_count(seed()) == 1) by {
            reveal_with_fuel(Seq::filter, 2);
        }
    } else {
        lemma_generation_segments((n - 1) as nat);
        lemma_rewrite_counts(generation((n - 1) as nat));
    }
}

/// Later generations are strictly longer.
pub proof fn lemma_generation_grows(m: nat, n: nat)
    requires
        m < n,
    ensures
        generation(m).len() < generation(n).len(),
    decreases n,
{
    let prev = (n - 1) as nat;
    lemma_rewrite_counts(generation(prev));
    lemma_generation_segments(prev);
    lemma_pow_positive(7, prev);
    if m < prev {
        lemma_generation_grows(m, prev);
    }
}

/// No two generations coincide.
pub proof fn lemma_generation_injective(m: nat, n: nat)
    requires
        generation(m) == generation(n),
    ensures
        m == n,
{
    if m < n {
        lemma_generation_grows(m, n);
    } else if n < m {
        lemma_generation_grows(n, m);
    }
}

} // verus!
