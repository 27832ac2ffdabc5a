use layout_cycler::tags::tab_switch_target;

#[test]
fn tab_picks_first_occupied_tag_after_the_active_one() {
    // tags: (active, occupied)
    let tags = vec![(false, true), (true, true), (false, false), (false, true), (false, true)];
    assert_eq!(tab_switch_target(&tags), Some(3));
}

#[test]
fn tab_skips_active_tags_when_choosing_a_candidate() {
    let tags = vec![(true, false), (true, true), (false, true)];
    assert_eq!(tab_switch_target(&tags), Some(2));
}

#[test]
fn tab_falls_back_to_first_occupied_when_nothing_follows_the_active_tag() {
    let tags = vec![(false, true), (false, false), (true, true)];
    assert_eq!(tab_switch_target(&tags), Some(0));
}

#[test]
fn tab_falls_back_when_no_tag_is_active() {
    let tags = vec![(false, false), (false, true)];
    assert_eq!(tab_switch_target(&tags), Some(1));
}

#[test]
fn tab_does_nothing_when_every_tag_is_empty() {
    let tags = vec![(true, false), (false, false), (false, false)];
    assert_eq!(tab_switch_target(&tags), None);
}

#[test]
fn tab_on_empty_tag_list_does_nothing() {
    let tags: Vec<(bool, bool)> = Vec::new();
    assert_eq!(tab_switch_target(&tags), None);
}
