//! Layout generators: pure maps from a window count to a layout tree.
//!
//! A generator is a small configuration value; it has no mutable state. The
//! closed set of variants covers a master-with-stack arrangement, two
//! recursive halving arrangements (dwindle and spiral), a corner arrangement
//! and a near-square grid (fair). For every variant, a request for `n`
//! windows yields a tree with exactly `n` leaf slots; a request for zero
//! windows yields a childless root.

use vstd::prelude::*;

use crate::tree::LayoutNode;
use crate::tree::SplitDir;
use crate::tree::TreeShape;
use crate::tree::leaf_count;
use crate::tree::leaf_count_seq;
use crate::tree::leaf_count_upto;
use crate::tree::leaf_row;
use crate::tree::leaves;
use crate::tree::lemma_leaf_count_leaves;
use crate::tree::node_pair;
use crate::tree::node_single;
use crate::tree::shapes_of;

verus! {

/// The side of the area that the master window of a master-stack layout
/// occupies.
#[derive(Clone, Copy, PartialEq, Eq, Structural, Debug)]
pub enum MasterSide {
    Left,
    Right,
    Top,
    Bottom,
}

/// The corner that the corner window of a corner layout occupies.
#[derive(Clone, Copy, PartialEq, Eq, Structural, Debug)]
pub enum CornerLocation {
    TopLeft,
    TopRight,
    BottomLeft,
    BottomRight,
}

/// The axis along which the lines of a fair layout run.
#[derive(Clone, Copy, PartialEq, Eq, Structural, Debug)]
pub enum Axis {
    Horizontal,
    Vertical,
}

/// A layout generator configuration.
#[derive(Clone, Copy, PartialEq, Eq, Structural, Debug)]
pub enum LayoutGenerator {
    /// One master window on a chosen side, remaining windows stacked beside
    /// it.
    MasterStack { master_side: MasterSide },
    /// Each window halves the remaining area, alternating split direction.
    Dwindle,
    /// Like dwindle, but the fresh window alternates between the leading and
    /// the trailing side, so the windows wind inward.
    Spiral,
    /// One window in a chosen corner, remaining windows stacked along the
    /// two opposite edges.
    Corner { corner_loc: CornerLocation },
    /// Windows distributed over near-equally sized lines of a grid.
    Fair { axis: Axis },
}

/// The other split direction.
pub open spec fn flip(d: SplitDir) -> SplitDir {
    match d {
        SplitDir::Horizontal => SplitDir::Vertical,
        SplitDir::Vertical => SplitDir::Horizontal,
    }
}

/// A childless root: the tree for zero windows.
pub open spec fn empty_shape(dir: SplitDir) -> TreeShape {
    TreeShape::Split { weight: 1, dir, kids: Seq::empty() }
}

/// The tree of a master-stack layout for `n` windows: one master leaf on the
/// configured side and the remaining `n - 1` windows stacked beside it.
pub open spec fn master_stack_shape(side: MasterSide, n: nat) -> TreeShape {
    let dir = match side {
        MasterSide::Left | MasterSide::Right => SplitDir::Horizontal,
        MasterSide::Top | MasterSide::Bottom => SplitDir::Vertical,
    };
    if n == 0 {
        empty_shape(dir)
    } else if n == 1 {
        TreeShape::Split { weight: 1, dir, kids: seq![TreeShape::Leaf { weight: 1 }] }
    } else {
        let master = TreeShape::Leaf { weight: 1 };
        let stack = TreeShape::Split { weight: 1, dir: flip(dir), kids: leaves((n - 1) as nat) };
        let kids = match side {
            MasterSide::Left | MasterSide::Top => seq![master, stack],
            MasterSide::Right | MasterSide::Bottom => seq![stack, master],
        };
        TreeShape::Split { weight: 1, dir, kids }
    }
}

/// The dwindle chain for `n >= 1` windows: a leaf, or a split of a leaf and
/// the chain for one window fewer, alternating direction.
pub open spec fn dwindle_chain(n: nat, dir: SplitDir) -> TreeShape
    decreases n,
{
    if n <= 1 {
        TreeShape::Leaf { weight: 1 }
    } else {
        TreeShape::Split {
            weight: 1,
            dir,
            kids: seq![
                TreeShape::Leaf { weight: 1 },
                dwindle_chain((n - 1) as nat, flip(dir)),
            ],
        }
    }
}

/// The tree of a dwindle layout for `n` windows.
pub open spec fn dwindle_shape(n: nat) -> TreeShape {
    if n == 0 {
        empty_shape(SplitDir::Horizontal)
    } else {
        dwindle_chain(n, SplitDir::Horizontal)
    }
}

/// The spiral chain for `n >= 1` windows: like the dwindle chain, but the
/// leaf alternates between the leading and the trailing position.
pub open spec fn spiral_chain(n: nat, dir: SplitDir, leaf_first: bool) -> TreeShape
    decreases n,
{
    if n <= 1 {
        TreeShape::Leaf { weight: 1 }
    } else {
        let rest = spiral_chain((n - 1) as nat, flip(dir), !leaf_first);
        let kids = if leaf_first {
            seq![TreeShape::Leaf { weight: 1 }, rest]
        } else {
            seq![rest, TreeShape::Leaf { weight: 1 }]
        };
        TreeShape::Split { weight: 1, dir, kids }
    }
}

/// The tree of a spiral layout for `n` windows.
pub open spec fn spiral_shape(n: nat) -> TreeShape {
    if n == 0 {
        empty_shape(SplitDir::Horizontal)
    } else {
        spiral_chain(n, SplitDir::Horizontal, true)
    }
}

/// The tree of a corner layout for `n` windows: a corner leaf, a horizontal
/// stack of `(n - 1) / 2` windows beside the corner, and a vertical stack of
/// the remaining windows along the full opposite side.
pub open spec fn corner_shape(loc: CornerLocation, n: nat) -> TreeShape {
    if n == 0 {
        empty_shape(SplitDir::Horizontal)
    } else if n == 1 {
        TreeShape::Split {
            weight: 1,
            dir: SplitDir::Horizontal,
            kids: seq![TreeShape::Leaf { weight: 1 }],
        }
    } else {
        let r = (n - 1) as nat;
        let h = r / 2;
        let v = (r - h) as nat;
        let vstack = TreeShape::Split { weight: 1, dir: SplitDir::Vertical, kids: leaves(v) };
        let corner = TreeShape::Leaf { weight: 1 };
        let main = if h == 0 {
            corner
        } else {
            let hstack = TreeShape::Split {
                weight: 1,
                dir: SplitDir::Horizontal,
                kids: leaves(h),
            };
            let col = match loc {
                CornerLocation::TopLeft | CornerLocation::TopRight => seq![corner, hstack],
                CornerLocation::BottomLeft | CornerLocation::BottomRight => seq![hstack, corner],
            };
            TreeShape::Split { weight: 1, dir: SplitDir::Vertical, kids: col }
        };
        let row = match loc {
            CornerLocation::TopLeft | CornerLocation::BottomLeft => seq![main, vstack],
            CornerLocation::TopRight | CornerLocation::BottomRight => seq![vstack, main],
        };
        TreeShape::Split { weight: 1, dir: SplitDir::Horizontal, kids: row }
    }
}

/// The least `j >= k` with `j * j >= n`, for `1 <= k <= n`.
pub open spec fn fair_lines_from(n: nat, k: nat) -> nat
    decreases n - k,
        when 1 <= k <= n via fair_lines_from_decreases
{
    if k * k >= n {
        k
    } else {
        fair_lines_from(n, (k + 1) as nat)
    }
}

#[via_fn]
proof fn fair_lines_from_decreases(n: nat, k: nat) {
    assert(1 <= k && k * k < n ==> k + 1 <= n) by (nonlinear_arith);
}

/// The number of lines of a fair layout: the least `k >= 1` whose square
/// reaches `n`.
pub open spec fn fair_line_count(n: nat) -> nat {
    if n == 0 {
        0
    } else {
        fair_lines_from(n, 1)
    }
}

/// One line of a fair layout: a stack of `c` windows across the main axis.
pub open spec fn fair_line(cross: SplitDir, c: nat) -> TreeShape {
    TreeShape::Split { weight: 1, dir: cross, kids: leaves(c) }
}

/// The lines of a fair layout for `n >= 1` windows: `ln` lines holding
/// `n / ln` windows each, with the first `n % ln` lines holding one more.
pub open spec fn fair_kids(cross: SplitDir, n: nat, ln: nat) -> Seq<TreeShape> {
    Seq::new(
        ln,
        |i: int| fair_line(cross, ((n / ln) + if i < n % ln { 1nat } else { 0nat }) as nat),
    )
}

/// The tree of a fair layout for `n` windows.
pub open spec fn fair_shape(axis: Axis, n: nat) -> TreeShape {
    let main = match axis {
        Axis::Vertical => SplitDir::Horizontal,
        Axis::Horizontal => SplitDir::Vertical,
    };
    if n == 0 {
        empty_shape(main)
    } else {
        TreeShape::Split {
            weight: 1,
            dir: main,
            kids: fair_kids(flip(main), n, fair_line_count(n)),
        }
    }
}

/// The tree a generator produces for `n` windows.
pub open spec fn layout_shape(g: LayoutGenerator, n: nat) -> TreeShape {
    match g {
        LayoutGenerator::MasterStack { master_side } => master_stack_shape(master_side, n),
        LayoutGenerator::Dwindle => dwindle_shape(n),
        LayoutGenerator::Spiral => spiral_shape(n),
        LayoutGenerator::Corner { corner_loc } => corner_shape(corner_loc, n),
        LayoutGenerator::Fair { axis } => fair_shape(axis, n),
    }
}

/// A singleton kid sequence holds the slots of its element.
pub proof fn lemma_leaf_count_seq1(a: TreeShape)
    ensures
        leaf_count_seq(seq![a]) == leaf_count(a),
{
    let s = seq![a];
    assert(leaf_count_upto(s, 1) == leaf_count_upto(s, 0) + leaf_count(s[0]));
}

/// A two-element kid sequence holds the slots of both elements.
pub proof fn lemma_leaf_count_seq2(a: TreeShape, b: TreeShape)
    ensures
        leaf_count_seq(seq![a, b]) == leaf_count(a) + leaf_count(b),
{
    let s = seq![a, b];
    assert(leaf_count_upto(s, 1) == leaf_count_upto(s, 0) + leaf_count(s[0]));
    assert(leaf_count_upto(s, 2) == leaf_count_upto(s, 1) + leaf_count(s[1]));
}

/// A master-stack tree has one slot per window.
pub proof fn lemma_master_stack_leaf_count(side: MasterSide, n: nat)
    ensures
        leaf_count(master_stack_shape(side, n)) == n,
{
    if n == 0 {
    } else if n == 1 {
        lemma_leaf_count_seq1(TreeShape::Leaf { weight: 1 });
    } else {
        let dir = match side {
            MasterSide::Left | MasterSide::Right => SplitDir::Horizontal,
            MasterSide::Top | MasterSide::Bottom => SplitDir::Vertical,
        };
        let master = TreeShape::Leaf { weight: 1 };
        let stack = TreeShape::Split { weight: 1, dir: flip(dir), kids: leaves((n - 1) as nat) };
        lemma_leaf_count_leaves((n - 1) as nat);
        lemma_leaf_count_seq2(master, stack);
        lemma_leaf_count_seq2(stack, master);
    }
}

/// A dwindle chain has one slot per window.
pub proof fn lemma_dwindle_chain_leaf_count(n: nat, dir: SplitDir)
    requires
        n >= 1,
    ensures
        leaf_count(dwindle_chain(n, dir)) == n,
    decreases n,
{
    if n > 1 {
        lemma_dwindle_chain_leaf_count((n - 1) as nat, flip(dir));
        lemma_leaf_count_seq2(
            TreeShape::Leaf { weight: 1 },
            dwindle_chain((n - 1) as nat, flip(dir)),
        );
    }
}

/// A spiral chain has one slot per window.
pub proof fn lemma_spiral_chain_leaf_count(n: nat, dir: SplitDir, leaf_first: bool)
    requires
        n >= 1,
    ensures
        leaf_count(spiral_chain(n, dir, leaf_first)) == n,
    decreases n,
{
    if n > 1 {
        let rest = spiral_chain((n - 1) as nat, flip(dir), !leaf_first);
        lemma_spiral_chain_leaf_count((n - 1) as nat, flip(dir), !leaf_first);
        lemma_leaf_count_seq2(TreeShape::Leaf { weight: 1 }, rest);
        lemma_leaf_count_seq2(rest, TreeShape::Leaf { weight: 1 });
    }
}

/// A corner tree has one slot per window.
pub proof fn lemma_corner_leaf_count(loc: CornerLocation, n: nat)
    ensures
        leaf_count(corner_shape(loc, n)) == n,
{
    if n == 0 {
    } else if n == 1 {
        lemma_leaf_count_seq1(TreeShape::Leaf { weight: 1 });
    } else {
        let r = (n - 1) as nat;
        let h = r / 2;
        let v = (r - h) as nat;
        let vstack = TreeShape::Split { weight: 1, dir: SplitDir::Vertical, kids: leaves(v) };
        let corner = TreeShape::Leaf { weight: 1 };
        lemma_leaf_count_leaves(v);
        if h == 0 {
            lemma_leaf_count_seq2(corner, vstack);
            lemma_leaf_count_seq2(vstack, corner);
        } else {
            let hstack = TreeShape::Split {
                weight: 1,
                dir: SplitDir::Horizontal,
                kids: leaves(h),
            };
            lemma_leaf_count_leaves(h);
            lemma_leaf_count_seq2(corner, hstack);
            lemma_leaf_count_seq2(hstack, corner);
            let main_tl = TreeShape::Split {
                weight: 1,
                dir: SplitDir::Vertical,
                kids: seq![corner, hstack],
            };
            let main_bl = TreeShape::Split {
                weight: 1,
                dir: SplitDir::Vertical,
                kids: seq![hstack, corner],
            };
            lemma_leaf_count_seq2(main_tl, vstack);
            lemma_leaf_count_seq2(vstack, main_tl);
            lemma_leaf_count_seq2(main_bl, vstack);
            lemma_leaf_count_seq2(vstack, main_bl);
        }
    }
}

/// The line search of the fair layout lands between its start and `n`.
pub proof fn lemma_fair_lines_from_range(n: nat, k: nat)
    requires
        1 <= k <= n,
    ensures
        k <= fair_lines_from(n, k) <= n,
    decreases n - k,
{
    if k * k < n {
        assert(k + 1 <= n) by (nonlinear_arith)
            requires
                1 <= k && k * k < n,
        ;
        lemma_fair_lines_from_range(n, (k + 1) as nat);
    }
}

/// The first `i` lines of a fair layout hold `i` shares plus one extra for
/// each of the first `rem` lines.
proof fn lemma_fair_kids_leaf_count_upto(cross: SplitDir, n: nat, ln: nat, i: int)
    requires
        1 <= ln,
        0 <= i <= ln,
    ensures
        leaf_count_upto(fair_kids(cross, n, ln), i) == i * (n / ln) + if i <= n % ln {
            i
        } else {
            (n % ln) as int
        },
    decreases i,
{
    if i > 0 {
        lemma_fair_kids_leaf_count_upto(cross, n, ln, i - 1);
        let s = fair_kids(cross, n, ln);
        let base = n / ln;
        let rem = n % ln;
        let c = (base + if i - 1 < rem { 1nat } else { 0nat }) as nat;
        assert(s.len() == ln);
        assert(s[i - 1] == fair_line(cross, c));
        lemma_leaf_count_leaves(c);
        assert(leaf_count(s[i - 1]) == c);
        assert(leaf_count_upto(s, i) == leaf_count_upto(s, i - 1) + leaf_count(s[i - 1]));
        assert((i - 1) * base + base == i * base) by (nonlinear_arith);
        if i <= rem {
            assert(leaf_count_upto(s, i) == (i - 1) * base + (i - 1) + (base + 1));
            assert(leaf_count_upto(s, i) == i * base + i);
        } else if i - 1 <= rem {
            assert(i - 1 == rem);
            assert(leaf_count_upto(s, i) == (i - 1) * base + (i - 1) + base);
            assert(leaf_count_upto(s, i) == i * base + rem);
        } else {
            assert(leaf_count_upto(s, i) == (i - 1) * base + rem + base);
            assert(leaf_count_upto(s, i) == i * base + rem);
        }
    } else {
        assert(leaf_count_upto(fair_kids(cross, n, ln), 0) == 0);
        assert(i * (n / ln) == 0);
    }
}

/// A fair tree has one slot per window.
pub proof fn lemma_fair_leaf_count(axis: Axis, n: nat)
    ensures
        leaf_count(fair_shape(axis, n)) == n,
{
    if n > 0 {
        let ln = fair_line_count(n);
        lemma_fair_lines_from_range(n, 1);
        let main = match axis {
            Axis::Vertical => SplitDir::Horizontal,
            Axis::Horizontal => SplitDir::Vertical,
        };
        let cross = flip(main);
        vstd::arithmetic::div_mod::lemma_fundamental_div_mod(n as int, ln as int);
        vstd::arithmetic::div_mod::lemma_mod_bound(n as int, ln as int);
        lemma_fair_kids_leaf_count_upto(cross, n, ln, ln as int);
        assert(ln * (n / ln) == (n / ln) * ln) by (nonlinear_arith);
    }
}

/// The other split direction, as executable code.
fn flip_dir(d: SplitDir) -> (r: SplitDir)
    ensures
        r == flip(d),
{
    match d {
        SplitDir::Horizontal => SplitDir::Vertical,
        SplitDir::Vertical => SplitDir::Horizontal,
    }
}

/// A childless root node.
fn empty_root(dir: SplitDir) -> (r: LayoutNode)
    ensures
        r.shape() == empty_shape(dir),
{
    let kids: Vec<LayoutNode> = Vec::new();
    let r = LayoutNode::Split { weight: 1, dir, kids };
    proof {
        assert(r.shape() =~= empty_shape(dir));
    }
    r
}

/// A root node holding a single leaf slot.
fn single_root(dir: SplitDir) -> (r: LayoutNode)
    ensures
        r.shape() == (TreeShape::Split {
            weight: 1,
            dir,
            kids: seq![TreeShape::Leaf { weight: 1 }],
        }),
{
    let kids = node_single(LayoutNode::Leaf { weight: 1 });
    let r = LayoutNode::Split { weight: 1, dir, kids };
    proof {
        assert(r.shape() =~= TreeShape::Split {
            weight: 1,
            dir,
            kids: seq![TreeShape::Leaf { weight: 1 }],
        });
    }
    r
}

/// Builds the master-stack tree.
fn master_stack_layout(side: MasterSide, n: u32) -> (r: LayoutNode)
    ensures
        r.shape() == master_stack_shape(side, n as nat),
{
    let dir = match side {
        MasterSide::Left | MasterSide::Right => SplitDir::Horizontal,
        MasterSide::Top | MasterSide::Bottom => SplitDir::Vertical,
    };
    if n == 0 {
        empty_root(dir)
    } else if n == 1 {
        single_root(dir)
    } else {
        let stack = LayoutNode::Split {
            weight: 1,
            dir: flip_dir(dir),
            kids: leaf_row(n - 1),
        };
        let master = LayoutNode::Leaf { weight: 1 };
        let ghost stack0 = stack;
        let kids = match side {
            MasterSide::Left | MasterSide::Top => node_pair(master, stack),
            MasterSide::Right | MasterSide::Bottom => node_pair(stack, master),
        };
        let r = LayoutNode::Split { weight: 1, dir, kids };
        proof {
            assert(stack0.shape() =~= TreeShape::Split {
                weight: 1,
                dir: flip(dir),
                kids: leaves((n - 1) as nat),
            });
            assert(r.shape() =~= master_stack_shape(side, n as nat));
        }
        r
    }
}

/// Builds the dwindle chain for `n >= 1` windows.
fn dwindle_layout_chain(n: u32, dir: SplitDir) -> (r: LayoutNode)
    requires
        n >= 1,
    ensures
        r.shape() == dwindle_chain(n as nat, dir),
    decreases n,
{
    if n == 1 {
        LayoutNode::Leaf { weight: 1 }
    } else {
        let rest = dwindle_layout_chain(n - 1, flip_dir(dir));
        let kids = node_pair(LayoutNode::Leaf { weight: 1 }, rest);
        let r = LayoutNode::Split { weight: 1, dir, kids };
        proof {
            assert(r.shape() =~= dwindle_chain(n as nat, dir));
        }
        r
    }
}

/// Builds the spiral chain for `n >= 1` windows.
fn spiral_layout_chain(n: u32, dir: SplitDir, leaf_first: bool) -> (r: LayoutNode)
    requires
        n >= 1,
    ensures
        r.shape() == spiral_chain(n as nat, dir, leaf_first),
    decreases n,
{
    if n == 1 {
        LayoutNode::Leaf { weight: 1 }
    } else {
        let rest = spiral_layout_chain(n - 1, flip_dir(dir), !leaf_first);
        let kids = if leaf_first {
            node_pair(LayoutNode::Leaf { weight: 1 }, rest)
        } else {
            node_pair(rest, LayoutNode::Leaf { weight: 1 })
        };
        let r = LayoutNode::Split { weight: 1, dir, kids };
        proof {
            assert(r.shape() =~= spiral_chain(n as nat, dir, leaf_first));
        }
        r
    }
}

/// Builds the corner tree.
fn corner_layout(loc: CornerLocation, n: u32) -> (r: LayoutNode)
    ensures
        r.shape() == corner_shape(loc, n as nat),
{
    if n == 0 {
        empty_root(SplitDir::Horizontal)
    } else if n == 1 {
        single_root(SplitDir::Horizontal)
    } else {
        let rest = n - 1;
        let h = rest / 2;
        let v = rest - h;
        let vstack = LayoutNode::Split { weight: 1, dir: SplitDir::Vertical, kids: leaf_row(v) };
        let ghost vstack0 = vstack;
        let main = if h == 0 {
            LayoutNode::Leaf { weight: 1 }
        } else {
            let hstack = LayoutNode::Split {
                weight: 1,
                dir: SplitDir::Horizontal,
                kids: leaf_row(h),
            };
            let ghost hstack0 = hstack;
            let corner = LayoutNode::Leaf { weight: 1 };
            let col = match loc {
                CornerLocation::TopLeft | CornerLocation::TopRight => node_pair(corner, hstack),
                CornerLocation::BottomLeft | CornerLocation::BottomRight => node_pair(
                    hstack,
                    corner,
                ),
            };
            proof {
                assert(hstack0.shape() =~= TreeShape::Split {
                    weight: 1,
                    dir: SplitDir::Horizontal,
                    kids: leaves(h as nat),
                });
            }
            LayoutNode::Split { weight: 1, dir: SplitDir::Vertical, kids: col }
        };
        let row = match loc {
            CornerLocation::TopLeft | CornerLocation::BottomLeft => node_pair(main, vstack),
            CornerLocation::TopRight | CornerLocation::BottomRight => node_pair(vstack, main),
        };
        let r = LayoutNode::Split { weight: 1, dir: SplitDir::Horizontal, kids: row };
        proof {
            assert(vstack0.shape() =~= TreeShape::Split {
                weight: 1,
                dir: SplitDir::Vertical,
                kids: leaves(v as nat),
            });
            assert(r.shape() =~= corner_shape(loc, n as nat));
        }
        r
    }
}

/// Whether `k * k` reaches `n`.
fn square_reaches(k: u32, n: u32) -> (r: bool)
    ensures
        r == ((k as nat) * (k as nat) >= n as nat),
{
    proof {
        assert((k as int) * (k as int) <= 0xFFFF_FFFFu64 * 0xFFFF_FFFFu64) by (nonlinear_arith)
            requires
                k <= 0xFFFF_FFFFu64,
        ;
    }
    let kk: u64 = (k as u64) * (k as u64);
    kk >= (n as u64)
}

/// Computes the number of lines of a fair layout.
fn fair_lines(n: u32) -> (r: u32)
    requires
        n >= 1,
    ensures
        r as nat == fair_line_count(n as nat),
        1 <= r <= n,
{
    let mut k: u32 = 1;
    while !square_reaches(k, n)
        invariant
            1 <= k <= n,
            fair_lines_from(n as nat, k as nat) == fair_lines_from(n as nat, 1),
        decreases n - k,
    {
        proof {
            assert(k + 1 <= n) by (nonlinear_arith)
                requires
                    1 <= k && (k as nat) * (k as nat) < n as nat,
            ;
            assert(fair_lines_from(n as nat, k as nat) == fair_lines_from(
                n as nat,
                (k + 1) as nat,
            ));
        }
        k = k + 1;
    }
    proof {
        assert(fair_lines_from(n as nat, k as nat) == k as nat);
        lemma_fair_lines_from_range(n as nat, 1);
    }
    k
}

/// Builds the fair tree.
fn fair_layout(axis: Axis, n: u32) -> (r: LayoutNode)
    ensures
        r.shape() == fair_shape(axis, n as nat),
{
    let main = match axis {
        Axis::Vertical => SplitDir::Horizontal,
        Axis::Horizontal => SplitDir::Vertical,
    };
    if n == 0 {
        empty_root(main)
    } else {
        let cross = flip_dir(main);
        let ln = fair_lines(n);
        let base = n / ln;
        let rem = n % ln;
        proof {
            if rem > 0 {
                assert(ln >= 2);
                vstd::arithmetic::div_mod::lemma_div_is_ordered_by_denominator(
                    n as int,
                    2,
                    ln as int,
                );
            }
        }
        let mut kids: Vec<LayoutNode> = Vec::new();
        let mut i: u32 = 0;
        proof {
            assert(shapes_of(kids@) =~= fair_kids(cross, n as nat, ln as nat).subrange(0, 0));
        }
        while i < ln
            invariant
                i <= ln,
                1 <= ln <= n,
                ln as nat == fair_line_count(n as nat),
                base == n as nat / ln as nat,
                rem == n as nat % ln as nat,
                rem > 0 ==> base + 1 <= n,
                kids@.len() == i,
                shapes_of(kids@) == fair_kids(cross, n as nat, ln as nat).subrange(0, i as int),
            decreases ln - i,
        {
            let cnt = if i < rem {
                base + 1
            } else {
                base
            };
            let line = LayoutNode::Split { weight: 1, dir: cross, kids: leaf_row(cnt) };
            let ghost line0 = line;
            let ghost prev = kids@;
            kids.push(line);
            proof {
                crate::tree::lemma_shapes_of_push(prev, line0);
                assert(line0.shape() =~= fair_line(cross, cnt as nat));
                assert(line0.shape() == fair_kids(cross, n as nat, ln as nat)[i as int]);
                assert(shapes_of(kids@) =~= fair_kids(cross, n as nat, ln as nat).subrange(
                    0,
                    i + 1,
                ));
            }
            i = i + 1;
        }
        let r = LayoutNode::Split { weight: 1, dir: main, kids };
        proof {
            assert(fair_kids(cross, n as nat, ln as nat).subrange(0, ln as int) =~= fair_kids(
                cross,
                n as nat,
                ln as nat,
            ));
            assert(r.shape() =~= fair_shape(axis, n as nat));
        }
        r
    }
}

impl LayoutGenerator {
    /// The pure layout function: the tree for `window_count` windows under
    /// this generator. The result has exactly one leaf slot per window.
    pub fn layout(&self, window_count: u32) -> (r: LayoutNode)
        ensures
            r.shape() == layout_shape(*self, window_count as nat),
            leaf_count(r.shape()) == window_count as nat,
    {
        let r = match self {
            LayoutGenerator::MasterStack { master_side } => master_stack_layout(
                *master_side,
                window_count,
            ),
            LayoutGenerator::Dwindle => if window_count == 0 {
                empty_root(SplitDir::Horizontal)
            } else {
                dwindle_layout_chain(window_count, SplitDir::Horizontal)
            },
            LayoutGenerator::Spiral => if window_count == 0 {
                empty_root(SplitDir::Horizontal)
            } else {
                spiral_layout_chain(window_count, SplitDir::Horizontal, true)
            },
            LayoutGenerator::Corner { corner_loc } => corner_layout(*corner_loc, window_count),
            LayoutGenerator::Fair { axis } => fair_layout(*axis, window_count),
        };
        proof {
            lemma_layout_leaf_count(*self, window_count as nat);
        }
        r
    }
}

/// Every generator's tree has exactly one leaf slot per requested window.
pub proof fn lemma_layout_leaf_count(g: LayoutGenerator, n: nat)
    ensures
        leaf_count(layout_shape(g, n)) == n,
{
    match g {
        LayoutGenerator::MasterStack { master_side } => lemma_master_stack_leaf_count(
            master_side,
            n,
        ),
        LayoutGenerator::Dwindle => if n >= 1 {
            lemma_dwindle_chain_leaf_count(n, SplitDir::Horizontal)
        },
        LayoutGenerator::Spiral => if n >= 1 {
            lemma_spiral_chain_leaf_count(n, SplitDir::Horizontal, true)
        },
        LayoutGenerator::Corner { corner_loc } => lemma_corner_leaf_count(corner_loc, n),
        LayoutGenerator::Fair { axis } => lemma_fair_leaf_count(axis, n),
    }
}

} // verus!
