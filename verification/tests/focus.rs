use bevy_asky::dest::Dest;
use bevy_asky::focus::{focus_keys, focus_on_tab, reset_focus, sync_focus_to_focusable, CompassQuadrant, Focus, FocusParam, Focusable};
use bevy_asky::keys::{ButtonInput, KeyCode};
use bevy_asky::tab::{arrow_key_navigation, ensure_tab_groups, initialize_focus, NavAction};
use bevy_asky::Entity;

fn param(n: u64, focus: Option<Entity>) -> FocusParam {
    let mut entries = Vec::new();
    for i in 0..n {
        entries.push((Entity(i + 1), Focusable::new(i as usize)));
    }
    FocusParam { entries, focus, keyboard_nav: true }
}

#[test]
fn move_focus_follows_creation_order() {
    let mut f = param(3, Some(Entity(1)));
    f.move_focus(CompassQuadrant::South);
    assert_eq!(f.focus, Some(Entity(2)));
    f.move_focus(CompassQuadrant::East);
    assert_eq!(f.focus, Some(Entity(3)));
    // Past either end the focus wraps around.
    f.move_focus(CompassQuadrant::South);
    assert_eq!(f.focus, Some(Entity(1)));
    f.move_focus(CompassQuadrant::North);
    assert_eq!(f.focus, Some(Entity(3)));
    f.move_focus(CompassQuadrant::West);
    assert_eq!(f.focus, Some(Entity(2)));
}

#[test]
fn law_move_round_trip_example() {
    for start in 1..=4u64 {
        for (there, back) in [
            (CompassQuadrant::South, CompassQuadrant::North),
            (CompassQuadrant::North, CompassQuadrant::South),
            (CompassQuadrant::East, CompassQuadrant::West),
            (CompassQuadrant::West, CompassQuadrant::East),
        ] {
            let mut f = param(4, Some(Entity(start)));
            f.block(Some(Entity(3)));
            if start == 3 {
                continue;
            }
            f.move_focus(there);
            f.move_focus(back);
            assert_eq!(f.focus, Some(Entity(start)));
        }
    }
}

#[test]
fn blocked_entities_are_skipped() {
    let mut f = param(3, Some(Entity(1)));
    f.block(Some(Entity(2)));
    assert!(f.is_blocked(Entity(2)));
    f.move_focus(CompassQuadrant::South);
    assert_eq!(f.focus, Some(Entity(3)));
}

#[test]
fn law_unblock_undoes_block_example() {
    let mut f = param(2, Some(Entity(1)));
    f.block(Some(Entity(2)));
    f.unblock(Some(Entity(2)));
    assert!(!f.is_blocked(Entity(2)));
    f.move_focus(CompassQuadrant::South);
    assert_eq!(f.focus, Some(Entity(2)));
}

#[test]
fn law_move_from_lands_unblocked_example() {
    let mut f = param(3, Some(Entity(1)));
    f.block_and_move(None);
    assert!(f.is_blocked(Entity(1)));
    assert_eq!(f.focus, Some(Entity(2)));
    f.block_and_move(None);
    assert_eq!(f.focus, Some(Entity(3)));
    f.block_and_move(None);
    assert_eq!(f.focus, None);
}

#[test]
fn law_reset_focus_lands_unblocked_example() {
    let mut f = param(3, None);
    reset_focus(&mut f);
    assert_eq!(f.focus, Some(Entity(1)));
    f.block(Some(Entity(1)));
    reset_focus(&mut f);
    assert_eq!(f.focus, Some(Entity(2)));
}

#[test]
fn focus_keys_respect_keyboard_nav() {
    let mut input = ButtonInput::new();
    input.press(KeyCode::ArrowDown);
    let mut f = param(2, Some(Entity(1)));
    focus_keys(&input, &mut f);
    assert_eq!(f.focus, Some(Entity(2)));
    f.set_keyboard_nav(false);
    let mut up = ButtonInput::new();
    up.press(KeyCode::ArrowUp);
    focus_keys(&up, &mut f);
    assert_eq!(f.focus, Some(Entity(2)));
    assert!(!f.keyboard_nav());
}

#[test]
fn move_focus_to_and_simple_focus() {
    let mut f = param(3, None);
    f.move_focus_to(Entity(3));
    assert!(f.is_focused(Entity(3)));
    let mut simple = Focus { focus: None };
    simple.focus_on(Entity(5));
    assert!(simple.is_focused(Entity(5)));
    assert!(!simple.is_focused(Entity(4)));
}

#[test]
fn sync_focus_touches_old_and_new() {
    let mut entries = vec![(Entity(1), Focusable::new(0)), (Entity(2), Focusable::new(1))];
    let mut last = Some(Entity(1));
    sync_focus_to_focusable(Some(Entity(2)), &mut entries, &mut last);
    assert_eq!(last, Some(Entity(2)));
    assert_eq!(entries[0].1.version, 1);
    assert_eq!(entries[1].1.version, 1);
    sync_focus_to_focusable(Some(Entity(2)), &mut entries, &mut last);
    assert_eq!(entries[1].1.version, 1);
}

#[test]
fn initialize_focus_picks_first_least_tab_index() {
    let focusables = [(Entity(1), 3), (Entity(2), -1), (Entity(3), 1), (Entity(4), 1)];
    assert_eq!(initialize_focus(None, &focusables), Some(Entity(3)));
    assert_eq!(initialize_focus(Some(Entity(1)), &focusables), None);
    assert_eq!(initialize_focus(Some(Entity(2)), &focusables), Some(Entity(3)));
    assert_eq!(initialize_focus(Some(Entity(9)), &focusables), Some(Entity(3)));
    assert_eq!(initialize_focus(None, &[(Entity(1), -1)]), None);
    assert_eq!(initialize_focus(None, &[]), None);
}

#[test]
fn arrow_keys_ask_for_navigation() {
    let mut down = ButtonInput::new();
    down.press(KeyCode::ArrowDown);
    assert_eq!(arrow_key_navigation(&down, false), Some(NavAction::Next));
    assert_eq!(arrow_key_navigation(&down, true), None);
    let mut left = ButtonInput::new();
    left.press(KeyCode::ArrowLeft);
    assert_eq!(arrow_key_navigation(&left, false), Some(NavAction::Previous));
    let mut both = ButtonInput::new();
    both.press(KeyCode::ArrowUp);
    both.press(KeyCode::ArrowRight);
    assert_eq!(arrow_key_navigation(&both, false), Some(NavAction::Next));
    assert_eq!(arrow_key_navigation(&ButtonInput::new(), false), None);
}

#[test]
fn tab_groups_for_parents_that_lack_one() {
    let parents = [(Entity(1), true), (Entity(2), false), (Entity(3), false), (Entity(2), false)];
    assert_eq!(ensure_tab_groups(&parents), vec![Entity(2), Entity(3), Entity(2)]);
    assert!(ensure_tab_groups(&[]).is_empty());
}

#[test]
fn dest_from_entity_replaces_it() {
    assert_eq!(Dest::from(Entity(4)), Dest::Replace(Entity(4)));
    let d: Dest = Entity(5).into();
    assert_eq!(d, Dest::Replace(Entity(5)));
}

#[test]
fn tab_moves_focus_on() {
    let mut f = param(3, Some(Entity(2)));
    let mut tab = ButtonInput::new();
    tab.press(KeyCode::Tab);
    focus_on_tab(&tab, &mut f);
    assert_eq!(f.focus, Some(Entity(3)));
    focus_on_tab(&tab, &mut f);
    assert_eq!(f.focus, Some(Entity(1)));
    focus_on_tab(&ButtonInput::new(), &mut f);
    assert_eq!(f.focus, Some(Entity(1)));
}

#[test]
fn law_move_lands_unblocked_example() {
    let mut f = param(3, Some(Entity(1)));
    f.block(Some(Entity(2)));
    f.block(Some(Entity(3)));
    f.move_focus(CompassQuadrant::South);
    assert_eq!(f.focus, Some(Entity(1)));
    f.unblock(Some(Entity(3)));
    f.move_focus(CompassQuadrant::North);
    assert_eq!(f.focus, Some(Entity(3)));
    assert!(!f.is_blocked(Entity(3)));
}
