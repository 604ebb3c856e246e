//! Building the search tree of a position to a fixed depth.

use vstd::prelude::*;
use rayon::iter::{IntoParallelRefIterator, ParallelIterator};
use crate::board::{apply, legal_moves, legal_moves_of, position_after, Position};
use crate::material::{evaluate, lemma_material_range, material};
use crate::score::{bounded, root_scores, score, Side};
use crate::tree::{lemma_shapes_upto, RecursiveResult, Shape};

verus! {

/// The depth at which a search fans its first level out over worker threads.
pub const RECURSION_DEPTH: usize = 5;

/// The tree of a position at a depth: at depth zero the leaf with the
/// position's material totals; else one subtree per legal move, in move
/// order, each one ply shallower.
pub open spec fn tree_of(p: Position, depth: nat) -> Shape
    decreases depth, 0nat,
{
    if depth == 0 {
        Shape::Leaf(material(p, Side::White) as usize, material(p, Side::Black) as usize)
    } else {
        Shape::Node(
            subtrees(p, legal_moves_of(p), (depth - 1) as nat, legal_moves_of(p).len()),
        )
    }
}

/// The trees, at `depth`, of the positions that the first `n` of `moves` lead
/// to from `p`.
pub open spec fn subtrees(p: Position, moves: Seq<chess::ChessMove>, depth: nat, n: nat) -> Seq<
    Shape,
>
    decreases depth, n,
{
    if n == 0 || n > moves.len() {
        Seq::empty()
    } else {
        subtrees(p, moves, depth, (n - 1) as nat).push(
            tree_of(position_after(p, moves[n - 1]), depth),
        )
    }
}

/// `subtrees` yields `n` trees, the `j`-th being that of the `j`-th move.
pub proof fn lemma_subtrees(p: Position, moves: Seq<chess::ChessMove>, depth: nat, n: nat)
    requires
        n <= moves.len(),
    ensures
        subtrees(p, moves, depth, n).len() == n,
        forall|j: int|
            0 <= j < n ==> #[trigger] subtrees(p, moves, depth, n)[j] == tree_of(
                position_after(p, moves[j]),
                depth,
            ),
    decreases n,
{
    if n > 0 {
        lemma_subtrees(p, moves, depth, (n - 1) as nat);
    }
}

/// No leaf of a position's tree holds more than a side's material can be.
pub proof fn lemma_tree_of_bounded(p: Position, depth: nat)
    ensures
        bounded(tree_of(p, depth)),
    decreases depth,
{
    if depth == 0 {
        lemma_material_range(p, Side::White);
        lemma_material_range(p, Side::Black);
    } else {
        let moves = legal_moves_of(p);
        let d = (depth - 1) as nat;
        let children = subtrees(p, moves, d, moves.len());
        lemma_subtrees(p, moves, d, moves.len());
        assert forall|i: int| 0 <= i < children.len() implies bounded(#[trigger] children[i]) by {
            lemma_tree_of_bounded(position_after(p, moves[i]), d);
        }
    }
}

/// A search to depth zero is the leaf that holds the position's material
/// totals.
pub proof fn lemma_depth_zero(p: Position)
    ensures
        tree_of(p, 0) == Shape::Leaf(
            material(p, Side::White) as usize,
            material(p, Side::Black) as usize,
        ),
{
}

/// A tree of depth one or more has one child per legal move, the `i`-th being
/// the tree of the position after the `i`-th move, one ply shallower.
pub proof fn lemma_children_follow_moves(p: Position, depth: nat)
    requires
        depth > 0,
    ensures
        tree_of(p, depth) is Node,
        tree_of(p, depth)->Node_0.len() == legal_moves_of(p).len(),
        forall|i: int|
            0 <= i < legal_moves_of(p).len() ==> #[trigger] tree_of(p, depth)->Node_0[i]
                == tree_of(position_after(p, legal_moves_of(p)[i]), (depth - 1) as nat),
{
    lemma_subtrees(p, legal_moves_of(p), (depth - 1) as nat, legal_moves_of(p).len());
}

/// A search of one ply or more reports one score per legal move of the root,
/// the `i`-th being the score of the tree that the `i`-th move leads to.
pub proof fn lemma_scores_follow_moves(p: Position, depth: nat, side: Side)
    requires
        depth > 0,
    ensures
        root_scores(tree_of(p, depth), side).len() == legal_moves_of(p).len(),
        forall|i: int|
            0 <= i < legal_moves_of(p).len() ==> #[trigger] root_scores(tree_of(p, depth), side)[i]
                == score(tree_of(position_after(p, legal_moves_of(p)[i]), (depth - 1) as nat), side),
{
    lemma_children_follow_moves(p, depth);
}

/// Builds the tree of `position` to depth `n`. At `RECURSION_DEPTH` the
/// subtrees of the legal moves are built on worker threads, one task per
/// move; at every other depth they are built one after the other.
pub fn recursiv_move_gen(position: &Position, n: usize) -> (tree: RecursiveResult)
    ensures
        tree@ == tree_of(*position, n as nat),
        bounded(tree@),
    decreases n, 0nat,
{
    proof {
        lemma_tree_of_bounded(*position, n as nat);
    }
    if n == 0 {
        let val = evaluate(position);
        return RecursiveResult::Last(val);
    }
    let moves = legal_moves(position);
    let children = if n == RECURSION_DEPTH {
        expand_in_parallel(position, &moves, n - 1)
    } else {
        expand_in_order(position, &moves, n - 1)
    };
    let tree = RecursiveResult::Branch(children);
    proof {
        let want = subtrees(*position, moves@, (n - 1) as nat, moves@.len());
        lemma_subtrees(*position, moves@, (n - 1) as nat, moves@.len());
        lemma_shapes_upto(children, children.len() as nat);
        assert(tree@->Node_0 =~= want);
    }
    tree
}

/// Builds the tree, at `depth`, of the position that `m` leads to.
pub fn expand_move(position: &Position, m: &chess::ChessMove, depth: usize) -> (tree:
    RecursiveResult)
    requires
        legal_moves_of(*position).contains(*m),
    ensures
        tree@ == tree_of(position_after(*position, *m), depth as nat),
    decreases depth, 1nat,
{
    let next = apply(position, *m);
    recursiv_move_gen(&next, depth)
}

/// Builds the subtrees of `moves` one after the other.
fn expand_in_order(position: &Position, moves: &Vec<chess::ChessMove>, depth: usize) -> (children:
    Vec<RecursiveResult>)
    requires
        moves@ == legal_moves_of(*position),
    ensures
        children@.len() == moves@.len(),
        forall|i: int|
            0 <= i < moves@.len() ==> (#[trigger] children@[i])@ == tree_of(
                position_after(*position, moves@[i]),
                depth as nat,
            ),
    decreases depth, 2nat,
{
    let mut children: Vec<RecursiveResult> = Vec::new();
    let mut i: usize = 0;
    while i < moves.len()
        invariant
            i <= moves.len(),
            moves@ == legal_moves_of(*position),
            children@.len() == i,
            forall|j: int|
                0 <= j < i ==> (#[trigger] children@[j])@ == tree_of(
                    position_after(*position, moves@[j]),
                    depth as nat,
                ),
        decreases moves.len() - i,
    {
        let child = expand_move(position, &moves[i], depth);
        children.push(child);
        i = i + 1;
    }
    children
}

/// Hands one call of `expand_move` per move to rayon's `par_iter`, `map` and
/// `collect`. On a slice these keep the order of the items, so the `i`-th
/// tree is the one that `expand_move` returns for the `i`-th move.
#[verifier::external_body]
fn expand_in_parallel(position: &Position, moves: &Vec<chess::ChessMove>, depth: usize) -> (children:
    Vec<RecursiveResult>)
    requires
        moves@ == legal_moves_of(*position),
    ensures
        children@.len() == moves@.len(),
        forall|i: int|
            0 <= i < moves@.len() ==> (#[trigger] children@[i])@ == tree_of(
                position_after(*position, moves@[i]),
                depth as nat,
            ),
{
    moves.par_iter().map(|m| expand_move(position, m, depth)).collect()
}

} // verus!
