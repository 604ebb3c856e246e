//! The search tree and its mathematical shape.

use vstd::prelude::*;

verus! {

/// Upper bound on a material total that a leaf may hold when its tree is
/// aggregated.
pub const LEAF_LIMIT: usize = 0xffff_ffff;

/// The mathematical shape of a search tree.
pub enum Shape {
    /// Material totals of the white and of the black side.
    Leaf(usize, usize),
    /// One subtree per move, in move order.
    Node(Seq<Shape>),
}

/// A search tree: either the material totals of a leaf position, or one
/// subtree per legal move of an expanded position, in move order.
#[derive(Debug, PartialEq, Eq)]
pub enum RecursiveResult {
    /// An expanded position: the trees of its legal moves, in move order.
    Branch(Vec<RecursiveResult>),
    /// A leaf: white's material total, then black's.
    Last((usize, usize)),
}

impl View for RecursiveResult {
    type V = Shape;

    open spec fn view(&self) -> Shape {
        shape_of(*self)
    }
}

/// The shape of a tree.
pub open spec fn shape_of(t: RecursiveResult) -> Shape
    decreases t,
{
    match t {
        RecursiveResult::Last(pair) => Shape::Leaf(pair.0, pair.1),
        RecursiveResult::Branch(children) => Shape::Node(shapes_upto(children, children.len() as nat)),
    }
}

/// The shapes of the first `n` trees of `children`, in order.
pub open spec fn shapes_upto(children: Vec<RecursiveResult>, n: nat) -> Seq<Shape>
    decreases children, n,
{
    if n == 0 || n > children.len() {
        Seq::empty()
    } else {
        shapes_upto(children, (n - 1) as nat).push(shape_of(children[n - 1]))
    }
}

/// `shapes_upto` yields `n` shapes, the `j`-th being that of the `j`-th tree.
pub proof fn lemma_shapes_upto(children: Vec<RecursiveResult>, n: nat)
    requires
        n <= children.len(),
    ensures
        shapes_upto(children, n).len() == n,
        forall|j: int| 0 <= j < n ==> children[j]@ == #[trigger] shapes_upto(children, n)[j],
    decreases n,
{
    if n > 0 {
        lemma_shapes_upto(children, (n - 1) as nat);
    }
}

/// Number of leaves of a tree.
pub open spec fn leaf_count(t: Shape) -> nat
    decreases t,
{
    match t {
        Shape::Leaf(_, _) => 1,
        Shape::Node(children) => leaf_count_upto(children, children.len()),
    }
}

/// Number of leaves under the first `n` trees of `children`.
pub open spec fn leaf_count_upto(children: Seq<Shape>, n: nat) -> nat
    decreases children, n,
{
    if n == 0 || n > children.len() {
        0
    } else {
        leaf_count_upto(children, (n - 1) as nat) + leaf_count(children[n - 1])
    }
}

impl RecursiveResult {
    /// Counts the leaves of the tree.
    pub fn moves_len(&self) -> (res: usize)
        requires
            leaf_count(self@) <= usize::MAX,
        ensures
            res == leaf_count(self@),
        decreases self,
    {
        match self {
            RecursiveResult::Branch(d) => {
                let ghost kids = self@->Node_0;
                proof {
                    lemma_branch_view(*self);
                }
                let mut res: usize = 0;
                let mut i: usize = 0;
                while i < d.len()
                    invariant
                        i <= d.len(),
                        self@ == Shape::Node(kids),
                        kids.len() == d.len(),
                        forall|j: int| 0 <= j < d.len() ==> d[j]@ == #[trigger] kids[j],
                        leaf_count_upto(kids, d.len() as nat) <= usize::MAX,
                        res == leaf_count_upto(kids, i as nat),
                        *self == RecursiveResult::Branch(*d),
                    decreases d.len() - i,
                {
                    proof {
                        lemma_leaf_count_upto_monotone(kids, (i + 1) as nat, d.len() as nat);
                        assert(decreases_to!(*d => d[i as int]));
                        assert(decreases_to!(*self => *d));
                    }
                    res = res + d[i].moves_len();
                    i = i + 1;
                }
                res
            },
            RecursiveResult::Last(_) => 1,
        }
    }
}

/// The shape of a branch is a node that holds the shapes of its children, in
/// order.
pub proof fn lemma_branch_view(t: RecursiveResult)
    requires
        t is Branch,
    ensures
        t@ is Node,
        t@->Node_0.len() == t->Branch_0.len(),
        forall|j: int| 0 <= j < t->Branch_0.len() ==> t->Branch_0[j]@ == #[trigger] t@->Node_0[j],
{
    lemma_shapes_upto(t->Branch_0, t->Branch_0.len() as nat);
}

/// The leaf count of a prefix grows with the prefix.
pub proof fn lemma_leaf_count_upto_monotone(children: Seq<Shape>, m: nat, n: nat)
    requires
        m <= n <= children.len(),
    ensures
        leaf_count_upto(children, m) <= leaf_count_upto(children, n),
    decreases n,
{
    if m < n {
        lemma_leaf_count_upto_monotone(children, m, (n - 1) as nat);
    }
}

} // verus!
