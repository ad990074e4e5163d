use bevy_asky::focus::{Focus, FocusParam, Focusable};
use bevy_asky::keys::{ButtonInput, KeyCode};
use bevy_asky::prompt::checkbox::{checkbox_controller, checkbox_group_controller, Checkbox};
use bevy_asky::prompt::confirm::{confirm_controller, Confirm};
use bevy_asky::prompt::radio::{radio_controller, radio_group_controller, Radio, RadioEntry};
use bevy_asky::prompt::toggle::{toggle_controller, Toggle};
use bevy_asky::prompt::FeedbackKind;
use bevy_asky::{Entity, Error};

fn pressed(key: KeyCode) -> ButtonInput {
    let mut input = ButtonInput::new();
    input.press(key);
    input
}

fn focus_on(e: Entity) -> Focus {
    Focus { focus: Some(e) }
}

#[test]
fn test_checkbox_key_presses() {
    let entity = Entity(1);
    let focus = focus_on(entity);
    let mut checkbox = Checkbox { checked: false };
    assert_eq!(checkbox.checked, false);

    checkbox_controller(&mut checkbox, entity, &focus, &pressed(KeyCode::Space));
    assert_eq!(checkbox.checked, true);

    checkbox_controller(&mut checkbox, entity, &focus, &pressed(KeyCode::Space));
    assert_eq!(checkbox.checked, false);

    checkbox_controller(&mut checkbox, entity, &focus, &pressed(KeyCode::KeyY));
    assert_eq!(checkbox.checked, true);

    checkbox_controller(&mut checkbox, entity, &focus, &pressed(KeyCode::KeyN));
    assert_eq!(checkbox.checked, false);

    checkbox_controller(&mut checkbox, entity, &focus, &pressed(KeyCode::Space));
    assert_eq!(checkbox.checked, true);

    checkbox_controller(&mut checkbox, entity, &focus, &pressed(KeyCode::Space));
    assert_eq!(checkbox.checked, false);
}

#[test]
fn test_confirm_key_presses() {
    let entity = Entity(1);
    let focus = focus_on(entity);
    let mut confirm = Confirm { yes: false };
    assert_eq!(confirm.yes, false);

    confirm_controller(&mut confirm, entity, &focus, &pressed(KeyCode::KeyY));
    assert_eq!(confirm.yes, true);

    confirm_controller(&mut confirm, entity, &focus, &pressed(KeyCode::KeyN));
    assert_eq!(confirm.yes, false);

    confirm_controller(&mut confirm, entity, &focus, &pressed(KeyCode::KeyL));
    assert_eq!(confirm.yes, true);

    confirm_controller(&mut confirm, entity, &focus, &pressed(KeyCode::KeyH));
    assert_eq!(confirm.yes, false);

    confirm_controller(&mut confirm, entity, &focus, &pressed(KeyCode::ArrowRight));
    assert_eq!(confirm.yes, true);

    confirm_controller(&mut confirm, entity, &focus, &pressed(KeyCode::ArrowLeft));
    assert_eq!(confirm.yes, false);

    confirm_controller(&mut confirm, entity, &focus, &pressed(KeyCode::KeyY));
    assert_eq!(confirm.yes, true);

    confirm_controller(&mut confirm, entity, &focus, &pressed(KeyCode::Enter));
    assert_eq!(confirm.yes, true);

    confirm_controller(&mut confirm, entity, &focus, &pressed(KeyCode::Escape));
    assert_eq!(confirm.yes, true);
}

#[test]
fn test_radio_key_presses() {
    let entity = Entity(1);
    let focus = focus_on(entity);
    let mut radios = vec![RadioEntry { id: entity, radio: Radio { checked: false }, parent: None }];
    assert_eq!(radios[0].radio.checked, false);

    radio_controller(&mut radios, &focus, &pressed(KeyCode::Space));
    assert_eq!(radios[0].radio.checked, true);

    radio_controller(&mut radios, &focus, &pressed(KeyCode::Space));
    assert_eq!(radios[0].radio.checked, false);

    radio_controller(&mut radios, &focus, &pressed(KeyCode::KeyL));
    assert_eq!(radios[0].radio.checked, true);

    radio_controller(&mut radios, &focus, &pressed(KeyCode::KeyH));
    assert_eq!(radios[0].radio.checked, false);

    radio_controller(&mut radios, &focus, &pressed(KeyCode::Space));
    assert_eq!(radios[0].radio.checked, true);

    radio_controller(&mut radios, &focus, &pressed(KeyCode::Space));
    assert_eq!(radios[0].radio.checked, false);
}

fn focus_param(ids: &[Entity], focus: Entity) -> FocusParam {
    let mut entries = Vec::new();
    for (i, id) in ids.iter().enumerate() {
        entries.push((*id, Focusable::new(i)));
    }
    FocusParam { entries, focus: Some(focus), keyboard_nav: true }
}

#[test]
fn test_toggle_key_presses() {
    let entity = Entity(1);
    let mut focus = focus_param(&[entity], entity);
    let mut toggle = Toggle::new("Choose:", ["Option A", "Option B"]);
    assert_eq!(toggle.index, 0);

    toggle_controller(&mut toggle, entity, &mut focus, &pressed(KeyCode::KeyL));
    assert_eq!(toggle.index, 1);

    toggle_controller(&mut toggle, entity, &mut focus, &pressed(KeyCode::KeyH));
    assert_eq!(toggle.index, 0);

    toggle_controller(&mut toggle, entity, &mut focus, &pressed(KeyCode::ArrowRight));
    assert_eq!(toggle.index, 1);

    toggle_controller(&mut toggle, entity, &mut focus, &pressed(KeyCode::ArrowLeft));
    assert_eq!(toggle.index, 0);

    toggle_controller(&mut toggle, entity, &mut focus, &pressed(KeyCode::KeyL));
    assert_eq!(toggle.index, 1);

    toggle_controller(&mut toggle, entity, &mut focus, &pressed(KeyCode::Enter));
    assert_eq!(toggle.index, 1);

    toggle_controller(&mut toggle, entity, &mut focus, &pressed(KeyCode::Escape));
    assert_eq!(toggle.index, 1);
}

#[test]
fn toggle_enter_submits_and_blocks_focus() {
    let a = Entity(1);
    let b = Entity(2);
    let mut focus = focus_param(&[a, b], a);
    let mut toggle = Toggle::new("Mode:", ["Easy", "Hard"]);
    let (submits, feedback) = toggle_controller(&mut toggle, a, &mut focus, &pressed(KeyCode::Enter));
    assert_eq!(submits, vec![Ok(0)]);
    assert!(feedback.is_none());
    assert_eq!(focus.focus, Some(b));
    assert!(focus.is_blocked(a));
}

#[test]
fn toggle_escape_cancels_with_error_feedback() {
    let a = Entity(1);
    let mut focus = focus_param(&[a], a);
    let mut toggle = Toggle::new("Mode:", ["Easy", "Hard"]);
    let (submits, feedback) = toggle_controller(&mut toggle, a, &mut focus, &pressed(KeyCode::Escape));
    assert_eq!(submits, vec![Err(Error::Cancel)]);
    let feedback = feedback.unwrap();
    assert_eq!(feedback.kind, FeedbackKind::Error);
    assert_eq!(feedback.message, "canceled");
}

#[test]
fn unfocused_prompts_ignore_keys() {
    let a = Entity(1);
    let other = focus_on(Entity(9));
    let mut checkbox = Checkbox { checked: false };
    checkbox_controller(&mut checkbox, a, &other, &pressed(KeyCode::Space));
    assert!(!checkbox.checked);
    let mut confirm = Confirm { yes: false };
    let submits = confirm_controller(&mut confirm, a, &other, &pressed(KeyCode::Enter));
    assert!(submits.is_empty());
    assert!(!confirm.yes);
}

#[test]
fn confirm_enter_submits_answer_and_escape_cancels() {
    let a = Entity(1);
    let focus = focus_on(a);
    let mut confirm = Confirm { yes: true };
    assert_eq!(confirm_controller(&mut confirm, a, &focus, &pressed(KeyCode::Enter)), vec![Ok(true)]);
    assert_eq!(confirm_controller(&mut confirm, a, &focus, &pressed(KeyCode::Escape)), vec![Err(Error::Cancel)]);
}

#[test]
fn law_one_selected_per_group_example() {
    let group = Entity(10);
    let other_group = Entity(20);
    let mut radios = vec![
        RadioEntry { id: Entity(1), radio: Radio { checked: true }, parent: Some(group) },
        RadioEntry { id: Entity(2), radio: Radio { checked: false }, parent: Some(group) },
        RadioEntry { id: Entity(3), radio: Radio { checked: true }, parent: Some(other_group) },
    ];
    radio_controller(&mut radios, &focus_on(Entity(2)), &pressed(KeyCode::KeyL));
    assert!(!radios[0].radio.checked);
    assert!(radios[1].radio.checked);
    assert!(radios[2].radio.checked);
}

#[test]
fn radio_group_without_selection_warns() {
    let children = vec![(Entity(1), Some(Radio { checked: false })), (Entity(2), Some(Radio { checked: false }))];
    let (submits, feedback) = radio_group_controller(&children, &focus_on(Entity(2)), &pressed(KeyCode::Enter));
    assert!(submits.is_empty());
    let feedback = feedback.unwrap();
    assert_eq!(feedback.kind, FeedbackKind::Warn);
    assert_eq!(feedback.message, "must select one");
}

#[test]
fn radio_group_position_skips_non_radio_children() {
    let children = vec![
        (Entity(1), None),
        (Entity(2), Some(Radio { checked: false })),
        (Entity(3), None),
        (Entity(4), Some(Radio { checked: true })),
    ];
    let (submits, feedback) = radio_group_controller(&children, &focus_on(Entity(2)), &pressed(KeyCode::Enter));
    assert_eq!(submits, vec![Ok(1)]);
    assert!(feedback.is_none());
    let (submits, feedback) = radio_group_controller(&children, &focus_on(Entity(4)), &pressed(KeyCode::Escape));
    assert_eq!(submits, vec![Err(Error::Cancel)]);
    assert_eq!(feedback.unwrap().message, "canceled");
}

#[test]
fn checkbox_group_cancel() {
    let children = vec![(Entity(1), Some(Checkbox { checked: true }))];
    let submits = checkbox_group_controller(&children, &focus_on(Entity(1)), &pressed(KeyCode::Escape));
    assert_eq!(submits, vec![Err(Error::Cancel)]);
}

#[test]
fn law_toggle_index_in_range_example() {
    let a = Entity(1);
    let mut focus = focus_param(&[a], a);
    let mut toggle = Toggle::new("Mode:", ["Easy", "Hard"]);
    let mut input = ButtonInput::new();
    input.press(KeyCode::KeyL);
    input.press(KeyCode::ArrowRight);
    toggle_controller(&mut toggle, a, &mut focus, &input);
    assert!(toggle.index < 2);
    assert_eq!(toggle.index, 1);
}

#[test]
fn law_radio_step_example() {
    let g = Entity(10);
    let h = Entity(20);
    let mut radios = vec![
        RadioEntry { id: Entity(1), radio: Radio { checked: false }, parent: Some(g) },
        RadioEntry { id: Entity(2), radio: Radio { checked: true }, parent: Some(g) },
        RadioEntry { id: Entity(3), radio: Radio { checked: true }, parent: Some(h) },
        RadioEntry { id: Entity(4), radio: Radio { checked: true }, parent: None },
    ];
    radio_controller(&mut radios, &focus_on(Entity(1)), &pressed(KeyCode::Space));
    assert!(radios[0].radio.checked);
    assert!(!radios[1].radio.checked);
    assert!(radios[2].radio.checked);
    assert!(radios[3].radio.checked);
}
