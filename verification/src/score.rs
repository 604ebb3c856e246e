//! Rolling the leaf scores of a search tree up to one score per root move.
//!
//! A leaf is worth the material of the scoring side minus that of the other
//! side. An inner node is worth the arithmetic mean of its children, rounded
//! toward zero; a node without children is worth zero.

use vstd::prelude::*;
use crate::tree::{lemma_branch_view, RecursiveResult, Shape, LEAF_LIMIT};

verus! {

/// The side from whose point of view a tree is scored.
#[derive(Clone, Copy, Debug, PartialEq, Eq)]
pub enum Side {
    White,
    Black,
}

/// Every leaf total of the tree is at most `LEAF_LIMIT`.
pub open spec fn bounded(t: Shape) -> bool
    decreases t,
{
    match t {
        Shape::Leaf(a, b) => a <= LEAF_LIMIT && b <= LEAF_LIMIT,
        Shape::Node(children) => forall|i: int|
            0 <= i < children.len() ==> bounded(#[trigger] children[i]),
    }
}

/// Score of a leaf with white total `a` and black total `b`.
pub open spec fn leaf_score(a: usize, b: usize, side: Side) -> int {
    match side {
        Side::White => a - b,
        Side::Black => b - a,
    }
}

/// `sum` divided by `count`, rounded toward zero; zero where `count` is zero.
pub open spec fn mean(sum: int, count: nat) -> int {
    if count == 0 {
        0
    } else if sum >= 0 {
        sum / (count as int)
    } else {
        -((-sum) / (count as int))
    }
}

/// Score of a tree for `side`.
pub open spec fn score(t: Shape, side: Side) -> int
    decreases t,
{
    match t {
        Shape::Leaf(a, b) => leaf_score(a, b, side),
        Shape::Node(children) => mean(score_sum(children, side, children.len()), children.len()),
    }
}

/// Sum of the scores of the first `n` trees of `children`.
pub open spec fn score_sum(children: Seq<Shape>, side: Side, n: nat) -> int
    decreases children, n,
{
    if n == 0 || n > children.len() {
        0
    } else {
        score_sum(children, side, (n - 1) as nat) + score(children[n - 1], side)
    }
}

/// The scores that a search reports for a tree: one per child of the root, in
/// order; for a lone leaf, its own score.
pub open spec fn root_scores(t: Shape, side: Side) -> Seq<int> {
    match t {
        Shape::Leaf(a, b) => seq![leaf_score(a, b, side)],
        Shape::Node(children) => Seq::new(children.len(), |i: int| score(children[i], side)),
    }
}

/// A mean lies within the bound that holds of the summands on average.
pub proof fn lemma_mean_bounded(sum: int, count: nat, limit: int)
    requires
        0 <= limit,
        -(count * limit) <= sum <= count * limit,
    ensures
        -limit <= mean(sum, count) <= limit,
{
    if count > 0 {
        let k = count as int;
        if sum >= 0 {
            assert(0 <= sum / k <= limit) by (nonlinear_arith)
                requires
                    k > 0,
                    0 <= sum <= k * limit,
            ;
        } else {
            let neg = -sum;
            assert(0 <= neg / k <= limit) by (nonlinear_arith)
                requires
                    k > 0,
                    0 <= neg <= k * limit,
            ;
        }
    }
}

/// The score of a bounded tree lies between `-LEAF_LIMIT` and `LEAF_LIMIT`.
pub proof fn lemma_score_bounded(t: Shape, side: Side)
    requires
        bounded(t),
    ensures
        -LEAF_LIMIT <= score(t, side) <= LEAF_LIMIT,
    decreases t,
{
    match t {
        Shape::Leaf(_, _) => {},
        Shape::Node(children) => {
            lemma_score_sum_bounded(children, side, children.len());
            lemma_mean_bounded(
                score_sum(children, side, children.len()),
                children.len(),
                LEAF_LIMIT as int,
            );
        },
    }
}

/// The sum of `n` scores of bounded trees lies within `n` times the bound.
pub proof fn lemma_score_sum_bounded(children: Seq<Shape>, side: Side, n: nat)
    requires
        n <= children.len(),
        forall|i: int| 0 <= i < children.len() ==> bounded(#[trigger] children[i]),
    ensures
        -(n * LEAF_LIMIT) <= score_sum(children, side, n) <= n * LEAF_LIMIT,
    decreases children, n,
{
    if n > 0 {
        lemma_score_sum_bounded(children, side, (n - 1) as nat);
        lemma_score_bounded(children[n - 1], side);
        assert(n * LEAF_LIMIT == (n - 1) * LEAF_LIMIT + LEAF_LIMIT) by (nonlinear_arith);
    }
}

/// A node with exactly one child has that child's score.
pub proof fn lemma_single_child(child: Shape, side: Side)
    ensures
        score(Shape::Node(seq![child]), side) == score(child, side),
{
    let children = seq![child];
    assert(children.len() == 1);
    assert(children[0] == child);
    assert(score_sum(children, side, 0) == 0);
    assert(score_sum(children, side, 1) == score_sum(children, side, 0) + score(children[0], side));
    let s = score(child, side);
    assert(s / 1 == s);
    assert((-s) / 1 == -s);
}

/// A node without children scores zero; any other node scores the sum of its
/// children's scores divided by their number, rounded toward zero.
pub proof fn lemma_node_is_mean(children: Seq<Shape>, side: Side)
    ensures
        children.len() == 0 ==> score(Shape::Node(children), side) == 0,
        children.len() > 0 ==> {
            let total = score_sum(children, side, children.len());
            let k = children.len() as int;
            &&& total >= 0 ==> score(Shape::Node(children), side) == total / k
            &&& total < 0 ==> score(Shape::Node(children), side) == -((-total) / k)
        },
{
}

/// The reported scores are one per child of the root, the `i`-th being the
/// score of the `i`-th child.
pub proof fn lemma_root_scores_align(children: Seq<Shape>, side: Side)
    ensures
        root_scores(Shape::Node(children), side).len() == children.len(),
        forall|i: int|
            0 <= i < children.len() ==> #[trigger] root_scores(Shape::Node(children), side)[i]
                == score(children[i], side),
{
}

impl RecursiveResult {
    /// Scores the tree for `side`.
    pub fn aggregate(&self, side: Side) -> (value: i64)
        requires
            bounded(self@),
        ensures
            value == score(self@, side),
            -LEAF_LIMIT <= value <= LEAF_LIMIT,
        decreases self,
    {
        match self {
            RecursiveResult::Last(pair) => {
                let white: i64 = pair.0 as i64;
                let black: i64 = pair.1 as i64;
                match side {
                    Side::White => white - black,
                    Side::Black => black - white,
                }
            },
            RecursiveResult::Branch(d) => {
                let ghost kids = self@->Node_0;
                proof {
                    lemma_branch_view(*self);
                    lemma_score_sum_bounded(kids, side, kids.len());
                    lemma_score_bounded(self@, side);
                }
                let mut sum: i128 = 0;
                let mut i: usize = 0;
                while i < d.len()
                    invariant
                        i <= d.len(),
                        self@ == Shape::Node(kids),
                        kids.len() == d.len(),
                        forall|j: int| 0 <= j < d.len() ==> d[j]@ == #[trigger] kids[j],
                        forall|j: int| 0 <= j < kids.len() ==> bounded(#[trigger] kids[j]),
                        sum == score_sum(kids, side, i as nat),
                        -(i * LEAF_LIMIT) <= sum <= i * LEAF_LIMIT,
                        *self == RecursiveResult::Branch(*d),
                    decreases d.len() - i,
                {
                    proof {
                        assert(decreases_to!(*d => d[i as int]));
                        assert(decreases_to!(*self => *d));
                        assert(bounded(kids[i as int]));
                        assert((i + 1) * LEAF_LIMIT == i * LEAF_LIMIT + LEAF_LIMIT)
                            by (nonlinear_arith);
                        assert(i * LEAF_LIMIT <= 0xffff_ffff_ffff_ffff * 0xffff_ffff)
                            by (nonlinear_arith)
                            requires
                                i <= 0xffff_ffff_ffff_ffff,
                                LEAF_LIMIT == 0xffff_ffff,
                        ;
                    }
                    let v: i64 = d[i].aggregate(side);
                    sum = sum + (v as i128);
                    i = i + 1;
                }
                let count: i128 = d.len() as i128;
                if count == 0 {
                    0
                } else if sum >= 0 {
                    (sum / count) as i64
                } else {
                    let neg: i128 = -sum;
                    let q: i128 = neg / count;
                    (-q) as i64
                }
            },
        }
    }

    /// Scores the tree for `side` as a search reports it: one score per child
    /// of the root, in order. A lone leaf reports its own score.
    pub fn calc_val_list(&self, side: Side) -> (res: Vec<i64>)
        requires
            bounded(self@),
        ensures
            res@.len() == root_scores(self@, side).len(),
            forall|i: int| 0 <= i < res@.len() ==> #[trigger] res@[i] == root_scores(self@, side)[i],
    {
        match self {
            RecursiveResult::Last(_) => {
                let v: i64 = self.aggregate(side);
                vec![v]
            },
            RecursiveResult::Branch(d) => {
                let ghost kids = self@->Node_0;
                proof {
                    lemma_branch_view(*self);
                }
                let mut res: Vec<i64> = Vec::new();
                let mut i: usize = 0;
                while i < d.len()
                    invariant
                        i <= d.len(),
                        self@ == Shape::Node(kids),
                        kids.len() == d.len(),
                        forall|j: int| 0 <= j < d.len() ==> d[j]@ == #[trigger] kids[j],
                        forall|j: int| 0 <= j < kids.len() ==> bounded(#[trigger] kids[j]),
                        res@.len() == i,
                        forall|j: int| 0 <= j < i ==> #[trigger] res@[j] == score(kids[j], side),
                    decreases d.len() - i,
                {
                    proof {
                        assert(bounded(kids[i as int]));
                    }
                    let v: i64 = d[i].aggregate(side);
                    res.push(v);
                    i = i + 1;
                }
                res
            },
        }
    }
}

} // verus!
