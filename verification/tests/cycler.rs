use layout_cycler::cycler::ConfigError;
use layout_cycler::cycler::LayoutCycler;
use layout_cycler::generators::Axis;
use layout_cycler::generators::CornerLocation;
use layout_cycler::generators::LayoutGenerator;
use layout_cycler::generators::MasterSide;

fn two_generators() -> Vec<LayoutGenerator> {
    vec![
        LayoutGenerator::MasterStack { master_side: MasterSide::Left },
        LayoutGenerator::Dwindle,
    ]
}

fn twelve_generators() -> Vec<LayoutGenerator> {
    vec![
        LayoutGenerator::MasterStack { master_side: MasterSide::Left },
        LayoutGenerator::MasterStack { master_side: MasterSide::Right },
        LayoutGenerator::MasterStack { master_side: MasterSide::Top },
        LayoutGenerator::MasterStack { master_side: MasterSide::Bottom },
        LayoutGenerator::Dwindle,
        LayoutGenerator::Spiral,
        LayoutGenerator::Corner { corner_loc: CornerLocation::TopLeft },
        LayoutGenerator::Corner { corner_loc: CornerLocation::TopRight },
        LayoutGenerator::Corner { corner_loc: CornerLocation::BottomLeft },
        LayoutGenerator::Corner { corner_loc: CornerLocation::BottomRight },
        LayoutGenerator::Fair { axis: Axis::Vertical },
        LayoutGenerator::Fair { axis: Axis::Horizontal },
    ]
}

fn id_of(cycler: &mut LayoutCycler, tag: u64) -> usize {
    cycler.set_current_tag(tag);
    cycler.current_tree_id()
}

#[test]
fn empty_generator_list_is_a_configuration_error() {
    let r = LayoutCycler::new(Vec::new());
    assert!(matches!(r, Err(ConfigError::EmptyGenerators)));
}

#[test]
fn nonempty_generator_list_constructs() {
    assert!(LayoutCycler::new(two_generators()).is_ok());
}

#[test]
fn untouched_tag_uses_first_generator() {
    let mut cycler = LayoutCycler::new(two_generators()).unwrap();
    cycler.set_current_tag(7);
    let first = LayoutGenerator::MasterStack { master_side: MasterSide::Left };
    assert_eq!(cycler.layout(3), first.layout(3));
    assert_eq!(cycler.layout(0), first.layout(0));
}

#[test]
fn cycle_forward_selects_next_generator_and_wraps() {
    let tag_a: u64 = 1;
    let mut cycler = LayoutCycler::new(two_generators()).unwrap();
    cycler.set_current_tag(tag_a);
    let master = LayoutGenerator::MasterStack { master_side: MasterSide::Left };
    assert_eq!(cycler.layout(3), master.layout(3));

    cycler.cycle_layout_forward(tag_a);
    assert_eq!(id_of(&mut cycler, tag_a), 1);
    assert_eq!(cycler.layout(3), LayoutGenerator::Dwindle.layout(3));

    cycler.cycle_layout_forward(tag_a);
    assert_eq!(id_of(&mut cycler, tag_a), 0);
    assert_eq!(cycler.layout(3), master.layout(3));
}

#[test]
fn cycle_backward_wraps_and_leaves_other_tags_alone() {
    let tag_a: u64 = 1;
    let tag_b: u64 = 2;
    let generators = twelve_generators();
    let last: usize = generators.len() - 1;
    let mut cycler = LayoutCycler::new(generators).unwrap();
    assert_eq!(id_of(&mut cycler, tag_a), 0);
    assert_eq!(id_of(&mut cycler, tag_b), 0);

    cycler.cycle_layout_backward(tag_a);
    assert_eq!(id_of(&mut cycler, tag_a), last);
    assert_eq!(id_of(&mut cycler, tag_b), 0);
}

#[test]
fn full_cycle_forward_returns_to_start() {
    let tag: u64 = 3;
    let mut cycler = LayoutCycler::new(twelve_generators()).unwrap();
    cycler.cycle_layout_forward(tag);
    cycler.cycle_layout_forward(tag);
    let start = id_of(&mut cycler, tag);
    for _ in 0..12 {
        cycler.cycle_layout_forward(tag);
    }
    assert_eq!(id_of(&mut cycler, tag), start);
}

#[test]
fn full_cycle_backward_returns_to_start() {
    let tag: u64 = 3;
    let mut cycler = LayoutCycler::new(twelve_generators()).unwrap();
    cycler.cycle_layout_forward(tag);
    let start = id_of(&mut cycler, tag);
    for _ in 0..12 {
        cycler.cycle_layout_backward(tag);
    }
    assert_eq!(id_of(&mut cycler, tag), start);
}

#[test]
fn cycling_one_tag_never_moves_another() {
    let tag_a: u64 = 10;
    let tag_b: u64 = 20;
    let tag_c: u64 = 30;
    let mut cycler = LayoutCycler::new(twelve_generators()).unwrap();
    cycler.cycle_layout_forward(tag_b);
    cycler.cycle_layout_forward(tag_b);
    cycler.cycle_layout_forward(tag_b);
    let b_before = id_of(&mut cycler, tag_b);

    for _ in 0..7 {
        cycler.cycle_layout_forward(tag_a);
        cycler.cycle_layout_backward(tag_c);
        assert_eq!(id_of(&mut cycler, tag_b), b_before);
    }
}

#[test]
fn cursor_stays_in_range_over_any_cycle_sequence() {
    let len: usize = 12;
    let mut cycler = LayoutCycler::new(twelve_generators()).unwrap();
    let moves: [(u64, bool); 12] = [
        (1, true),
        (1, true),
        (2, false),
        (3, true),
        (1, false),
        (2, false),
        (2, false),
        (1, true),
        (3, false),
        (3, false),
        (1, true),
        (2, true),
    ];
    for (tag, forward) in moves {
        if forward {
            cycler.cycle_layout_forward(tag);
        } else {
            cycler.cycle_layout_backward(tag);
        }
        for t in [1u64, 2, 3] {
            assert!(id_of(&mut cycler, t) < len);
        }
    }
}

#[test]
fn tree_id_stable_without_cycles_and_changed_by_one() {
    let tag: u64 = 5;
    let mut cycler = LayoutCycler::new(twelve_generators()).unwrap();
    cycler.set_current_tag(tag);
    let first = cycler.current_tree_id();
    let second = cycler.current_tree_id();
    assert_eq!(first, second);

    cycler.cycle_layout_forward(tag);
    cycler.set_current_tag(tag);
    assert_ne!(cycler.current_tree_id(), first);
}

#[test]
fn layout_slot_count_follows_request_after_cycles() {
    let tag: u64 = 4;
    let mut cycler = LayoutCycler::new(twelve_generators()).unwrap();
    for round in 0..12u32 {
        cycler.cycle_layout_forward(tag);
        cycler.set_current_tag(tag);
        let tree = cycler.layout(round);
        assert_eq!(count_leaves(&tree), round as u64);
    }
}

fn count_leaves(n: &layout_cycler::tree::LayoutNode) -> u64 {
    match n {
        layout_cycler::tree::LayoutNode::Leaf { .. } => 1,
        layout_cycler::tree::LayoutNode::Split { kids, .. } => {
            let mut total: u64 = 0;
            for k in kids {
                total += count_leaves(k);
            }
            total
        }
    }
}
