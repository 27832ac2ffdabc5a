use layout_cycler::generators::Axis;
use layout_cycler::generators::CornerLocation;
use layout_cycler::generators::LayoutGenerator;
use layout_cycler::generators::MasterSide;
use layout_cycler::tree::LayoutNode;
use layout_cycler::tree::SplitDir;

fn count_leaves(n: &LayoutNode) -> u64 {
    match n {
        LayoutNode::Leaf { .. } => 1,
        LayoutNode::Split { kids, .. } => {
            let mut total: u64 = 0;
            for k in kids {
                total += count_leaves(k);
            }
            total
        }
    }
}

fn all_generators() -> Vec<LayoutGenerator> {
    vec![
        LayoutGenerator::MasterStack { master_side: MasterSide::Left },
        LayoutGenerator::MasterStack { master_side: MasterSide::Right },
        LayoutGenerator::MasterStack { master_side: MasterSide::Top },
        LayoutGenerator::MasterStack { master_side: MasterSide::Bottom },
        LayoutGenerator::Dwindle,
        LayoutGenerator::Spiral,
        LayoutGenerator::Corner { corner_loc: CornerLocation::TopLeft },
        LayoutGenerator::Corner { corner_loc: CornerLocation::TopRight },
        LayoutGenerator::Corner { corner_loc: CornerLocation::BottomLeft },
        LayoutGenerator::Corner { corner_loc: CornerLocation::BottomRight },
        LayoutGenerator::Fair { axis: Axis::Vertical },
        LayoutGenerator::Fair { axis: Axis::Horizontal },
    ]
}

fn leaf() -> LayoutNode {
    LayoutNode::Leaf { weight: 1 }
}

#[test]
fn every_variant_zero_windows_zero_slots() {
    for g in all_generators() {
        let tree = g.layout(0);
        assert_eq!(count_leaves(&tree), 0, "{:?}", g);
    }
}

#[test]
fn every_variant_slot_count_matches_window_count() {
    for g in all_generators() {
        for n in [1u32, 2, 3, 4, 5, 7, 12, 30] {
            let tree = g.layout(n);
            assert_eq!(count_leaves(&tree), n as u64, "{:?} at {}", g, n);
        }
    }
}

#[test]
fn master_stack_left_three_windows_exact_tree() {
    let g = LayoutGenerator::MasterStack { master_side: MasterSide::Left };
    let expected = LayoutNode::Split {
        weight: 1,
        dir: SplitDir::Horizontal,
        kids: vec![
            leaf(),
            LayoutNode::Split {
                weight: 1,
                dir: SplitDir::Vertical,
                kids: vec![leaf(), leaf()],
            },
        ],
    };
    assert_eq!(g.layout(3), expected);
}

#[test]
fn master_stack_bottom_puts_stack_first() {
    let g = LayoutGenerator::MasterStack { master_side: MasterSide::Bottom };
    let expected = LayoutNode::Split {
        weight: 1,
        dir: SplitDir::Vertical,
        kids: vec![
            LayoutNode::Split {
                weight: 1,
                dir: SplitDir::Horizontal,
                kids: vec![leaf(), leaf(), leaf()],
            },
            leaf(),
        ],
    };
    assert_eq!(g.layout(4), expected);
}

#[test]
fn dwindle_three_windows_exact_tree() {
    let expected = LayoutNode::Split {
        weight: 1,
        dir: SplitDir::Horizontal,
        kids: vec![
            leaf(),
            LayoutNode::Split {
                weight: 1,
                dir: SplitDir::Vertical,
                kids: vec![leaf(), leaf()],
            },
        ],
    };
    assert_eq!(LayoutGenerator::Dwindle.layout(3), expected);
}

#[test]
fn spiral_four_windows_exact_tree() {
    let expected = LayoutNode::Split {
        weight: 1,
        dir: SplitDir::Horizontal,
        kids: vec![
            leaf(),
            LayoutNode::Split {
                weight: 1,
                dir: SplitDir::Vertical,
                kids: vec![
                    LayoutNode::Split {
                        weight: 1,
                        dir: SplitDir::Horizontal,
                        kids: vec![leaf(), leaf()],
                    },
                    leaf(),
                ],
            },
        ],
    };
    assert_eq!(LayoutGenerator::Spiral.layout(4), expected);
}

#[test]
fn corner_top_left_six_windows_exact_tree() {
    let g = LayoutGenerator::Corner { corner_loc: CornerLocation::TopLeft };
    let expected = LayoutNode::Split {
        weight: 1,
        dir: SplitDir::Horizontal,
        kids: vec![
            LayoutNode::Split {
                weight: 1,
                dir: SplitDir::Vertical,
                kids: vec![
                    leaf(),
                    LayoutNode::Split {
                        weight: 1,
                        dir: SplitDir::Horizontal,
                        kids: vec![leaf(), leaf()],
                    },
                ],
            },
            LayoutNode::Split {
                weight: 1,
                dir: SplitDir::Vertical,
                kids: vec![leaf(), leaf(), leaf()],
            },
        ],
    };
    assert_eq!(g.layout(6), expected);
}

#[test]
fn corner_bottom_right_two_windows_exact_tree() {
    let g = LayoutGenerator::Corner { corner_loc: CornerLocation::BottomRight };
    let expected = LayoutNode::Split {
        weight: 1,
        dir: SplitDir::Horizontal,
        kids: vec![
            LayoutNode::Split { weight: 1, dir: SplitDir::Vertical, kids: vec![leaf()] },
            leaf(),
        ],
    };
    assert_eq!(g.layout(2), expected);
}

#[test]
fn fair_vertical_five_windows_exact_tree() {
    // Five windows fit a three-line grid (the least k with k * k >= 5), so
    // the lines hold 2, 2 and 1 windows.
    let g = LayoutGenerator::Fair { axis: Axis::Vertical };
    let line = |c: usize| LayoutNode::Split {
        weight: 1,
        dir: SplitDir::Vertical,
        kids: (0..c).map(|_| leaf()).collect(),
    };
    let expected = LayoutNode::Split {
        weight: 1,
        dir: SplitDir::Horizontal,
        kids: vec![line(2), line(2), line(1)],
    };
    assert_eq!(g.layout(5), expected);
}

#[test]
fn fair_horizontal_nine_windows_exact_tree() {
    // Nine windows fit a three-line grid exactly: three lines of three.
    let g = LayoutGenerator::Fair { axis: Axis::Horizontal };
    let line = || LayoutNode::Split {
        weight: 1,
        dir: SplitDir::Horizontal,
        kids: vec![leaf(), leaf(), leaf()],
    };
    let expected = LayoutNode::Split {
        weight: 1,
        dir: SplitDir::Vertical,
        kids: vec![line(), line(), line()],
    };
    assert_eq!(g.layout(9), expected);
}

#[test]
fn single_window_is_sole_slot() {
    for g in all_generators() {
        let tree = g.layout(1);
        assert_eq!(count_leaves(&tree), 1, "{:?}", g);
    }
}
