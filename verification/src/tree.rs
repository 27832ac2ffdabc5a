//! Layout trees: the geometric output of a layout generator.
//!
//! A tree is an ordered arrangement of nodes. Every node carries a relative
//! size weight (its share of the parent's area relative to its siblings) and
//! is either a leaf, which stands for exactly one window slot, or a split,
//! which divides its area among an ordered list of child nodes along a
//! direction. A tree for zero windows is a childless split: it has no leaf
//! slots at all.

use vstd::prelude::*;

verus! {

/// The direction along which a split node divides its area.
#[derive(Clone, Copy, PartialEq, Eq, Structural, Debug)]
pub enum SplitDir {
    /// Children are placed side by side, left to right.
    Horizontal,
    /// Children are stacked, top to bottom.
    Vertical,
}

/// The mathematical shape of a layout tree, used in specifications.
#[verifier::ext_equal]
pub enum TreeShape {
    /// One window slot.
    Leaf { weight: int },
    /// An ordered split of the available area among child shapes.
    Split { weight: int, dir: SplitDir, kids: Seq<TreeShape> },
}

/// An executable layout tree node.
#[derive(Debug, PartialEq, Eq)]
pub enum LayoutNode {
    /// One window slot.
    Leaf { weight: u32 },
    /// An ordered split of the available area among child nodes.
    Split { weight: u32, dir: SplitDir, kids: Vec<LayoutNode> },
}

impl LayoutNode {
    /// The shape this node denotes.
    pub open spec fn shape(self) -> TreeShape
        decreases self, 0int,
    {
        match self {
            LayoutNode::Leaf { weight } => TreeShape::Leaf { weight: weight as int },
            LayoutNode::Split { weight, dir, kids } => {
                proof {
                    assert(decreases_to!(self => kids));
                    assert(decreases_to!(kids => kids@));
                }
                TreeShape::Split {
                    weight: weight as int,
                    dir,
                    kids: shapes_upto(kids@, kids@.len() as int),
                }
            },
        }
    }
}

/// The shapes of the first `n` nodes of a node sequence, in order.
pub open spec fn shapes_upto(s: Seq<LayoutNode>, n: int) -> Seq<TreeShape>
    decreases s, n,
{
    if n <= 0 || n > s.len() {
        Seq::empty()
    } else {
        shapes_upto(s, n - 1).push(s[n - 1].shape())
    }
}

/// The shapes of all nodes of a node sequence, in order.
pub open spec fn shapes_of(s: Seq<LayoutNode>) -> Seq<TreeShape> {
    shapes_upto(s, s.len() as int)
}

/// The number of leaf slots in the first `n` elements of a shape sequence.
pub open spec fn leaf_count_upto(s: Seq<TreeShape>, n: int) -> nat
    decreases s, n,
{
    if n <= 0 || n > s.len() {
        0
    } else {
        leaf_count_upto(s, n - 1) + leaf_count(s[n - 1])
    }
}

/// The number of leaf slots (window slots) in a shape.
pub open spec fn leaf_count(t: TreeShape) -> nat
    decreases t, 0int,
{
    match t {
        TreeShape::Leaf { .. } => 1,
        TreeShape::Split { kids, .. } => leaf_count_upto(kids, kids.len() as int),
    }
}

/// The total number of leaf slots in a shape sequence.
pub open spec fn leaf_count_seq(s: Seq<TreeShape>) -> nat {
    leaf_count_upto(s, s.len() as int)
}

/// A sequence of `k` leaf shapes of weight 1.
pub open spec fn leaves(k: nat) -> Seq<TreeShape> {
    Seq::new(k, |i: int| TreeShape::Leaf { weight: 1 })
}

/// Shapes of a prefix are unchanged by appending a node.
pub proof fn lemma_shapes_upto_push(s: Seq<LayoutNode>, x: LayoutNode, n: int)
    requires
        n <= s.len(),
    ensures
        shapes_upto(s.push(x), n) == shapes_upto(s, n),
    decreases n,
{
    if n > 0 {
        lemma_shapes_upto_push(s, x, n - 1);
        assert(s.push(x)[n - 1] == s[n - 1]);
        assert(shapes_upto(s.push(x), n) == shapes_upto(s.push(x), n - 1).push(
            s.push(x)[n - 1].shape(),
        ));
        assert(shapes_upto(s, n) == shapes_upto(s, n - 1).push(s[n - 1].shape()));
    }
}

/// Appending a node appends its shape.
pub proof fn lemma_shapes_of_push(s: Seq<LayoutNode>, x: LayoutNode)
    ensures
        shapes_of(s.push(x)) == shapes_of(s).push(x.shape()),
{
    lemma_shapes_upto_push(s, x, s.len() as int);
    assert(s.push(x)[s.len() as int] == x);
    assert(shapes_of(s.push(x)) == shapes_upto(s.push(x), s.len() as int).push(x.shape()));
}

/// A vector holding just `a`.
pub fn node_single(a: LayoutNode) -> (v: Vec<LayoutNode>)
    ensures
        shapes_of(v@) == seq![a.shape()],
{
    let ghost a0 = a;
    let mut v: Vec<LayoutNode> = Vec::new();
    v.push(a);
    proof {
        assert(v@ == Seq::<LayoutNode>::empty().push(a0));
        lemma_shapes_of_push(Seq::empty(), a0);
        assert(shapes_of(Seq::<LayoutNode>::empty()) == Seq::<TreeShape>::empty());
        assert(shapes_of(v@) =~= seq![a0.shape()]);
    }
    v
}

/// A vector holding `a` then `b`.
pub fn node_pair(a: LayoutNode, b: LayoutNode) -> (v: Vec<LayoutNode>)
    ensures
        shapes_of(v@) == seq![a.shape(), b.shape()],
{
    let ghost a0 = a;
    let ghost b0 = b;
    let mut v: Vec<LayoutNode> = Vec::new();
    v.push(a);
    v.push(b);
    proof {
        assert(v@ == Seq::<LayoutNode>::empty().push(a0).push(b0));
        lemma_shapes_of_push(Seq::empty(), a0);
        lemma_shapes_of_push(Seq::<LayoutNode>::empty().push(a0), b0);
        assert(shapes_of(Seq::<LayoutNode>::empty()) == Seq::<TreeShape>::empty());
        assert(shapes_of(v@) =~= seq![a0.shape(), b0.shape()]);
    }
    v
}

/// A vector of `k` leaf nodes of weight 1.
pub fn leaf_row(k: u32) -> (v: Vec<LayoutNode>)
    ensures
        shapes_of(v@) == leaves(k as nat),
{
    let mut v: Vec<LayoutNode> = Vec::new();
    let mut i: u32 = 0;
    proof {
        assert(shapes_of(v@) =~= leaves(0));
    }
    while i < k
        invariant
            i <= k,
            v@.len() == i,
            shapes_of(v@) == leaves(i as nat),
        decreases k - i,
    {
        let ghost prev = v@;
        v.push(LayoutNode::Leaf { weight: 1 });
        proof {
            lemma_shapes_of_push(prev, LayoutNode::Leaf { weight: 1 });
            assert(leaves(i as nat).push(TreeShape::Leaf { weight: 1 }) =~= leaves(
                (i + 1) as nat,
            ));
        }
        i = i + 1;
    }
    v
}

/// A sequence of `k` equal leaves holds exactly `k` window slots.
pub proof fn lemma_leaf_count_leaves(k: nat)
    ensures
        leaf_count_seq(leaves(k)) == k,
{
    lemma_leaf_count_upto_leaves(k, k as int);
}

proof fn lemma_leaf_count_upto_leaves(k: nat, n: int)
    requires
        n <= k,
    ensures
        leaf_count_upto(leaves(k), n) == if n <= 0 { 0int } else { n },
    decreases n,
{
    if n > 0 {
        lemma_leaf_count_upto_leaves(k, n - 1);
        assert(leaves(k).len() == k);
        assert(leaves(k)[n - 1] == (TreeShape::Leaf { weight: 1 }));
        assert(leaf_count(TreeShape::Leaf { weight: 1 }) == 1);
        assert(leaf_count_upto(leaves(k), n) == leaf_count_upto(leaves(k), n - 1) + leaf_count(
            leaves(k)[n - 1],
        ));
    }
}

} // verus!
