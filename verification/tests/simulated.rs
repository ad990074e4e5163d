use bevy_asky::focus::{Focus, FocusParam, Focusable};
use bevy_asky::keys::{ButtonInput, ButtonState, Key, KeyCode, KeyboardInput};
use bevy_asky::prompt::checkbox::{checkbox_controller, checkbox_group_controller, Checkbox};
use bevy_asky::prompt::confirm::{confirm_controller, Confirm};
use bevy_asky::prompt::number::{number_key, Number, NumberOutcome};
use bevy_asky::prompt::radio::{radio_controller, radio_group_controller, Radio, RadioEntry};
use bevy_asky::prompt::text::text_controller;
use bevy_asky::prompt::toggle::{toggle_controller, Toggle};
use bevy_asky::string_cursor::StringCursor;
use bevy_asky::{Entity, Error};

fn keyboard_char(ch: char) -> KeyboardInput {
    KeyboardInput {
        logical_key: if ch == ' ' { Key::Space } else { Key::Character(ch.to_string()) },
        state: ButtonState::Pressed,
    }
}

fn keyboard_key(logical_key: Key) -> KeyboardInput {
    KeyboardInput { logical_key, state: ButtonState::Pressed }
}

fn press(key: KeyCode) -> ButtonInput {
    let mut input = ButtonInput::new();
    input.press(key);
    input
}

fn focus_param(ids: &[Entity], focus: Entity) -> FocusParam {
    let mut entries = Vec::new();
    for (i, id) in ids.iter().enumerate() {
        entries.push((*id, Focusable::new(i)));
    }
    FocusParam { entries, focus: Some(focus), keyboard_nav: true }
}

/// One text prompt fed one event per update; returns what it submitted.
fn run_text(events: &[KeyboardInput]) -> Vec<Result<String, Error>> {
    let entity = Entity(1);
    let mut prompts = vec![(entity, StringCursor::default())];
    let mut focus = focus_param(&[entity], entity);
    let mut log = Vec::new();
    for ev in events {
        for (id, r) in text_controller(&mut prompts, &mut focus, std::slice::from_ref(ev)) {
            assert_eq!(id, entity);
            log.push(r);
        }
    }
    log
}

fn submitted<T>(mut log: Vec<T>) -> T {
    assert_eq!(log.len(), 1);
    log.pop().unwrap()
}

#[test]
fn text_field_handles_editing_and_submits_text() {
    let mut events: Vec<KeyboardInput> = "hey".chars().map(keyboard_char).collect();
    events.push(keyboard_key(Key::ArrowLeft));
    events.push(keyboard_char('!'));
    events.push(keyboard_key(Key::Delete));
    events.push(keyboard_key(Key::Enter));

    assert_eq!(submitted(run_text(&events)).unwrap(), "he!");
}

#[test]
fn password_handles_editing_and_submits_unmasked_text() {
    let mut events: Vec<KeyboardInput> = "s3 cret!".chars().map(keyboard_char).collect();
    events.push(keyboard_key(Key::Backspace));
    events.push(keyboard_key(Key::Enter));

    assert_eq!(submitted(run_text(&events)).unwrap(), "s3 cret");
}

fn run_number(number: &Number<i32>, cursor: &mut StringCursor, events: &[KeyboardInput], log: &mut Vec<Result<i32, Error>>) {
    for ev in events {
        match number_key(number, cursor, ev) {
            Some(NumberOutcome::Submit(n)) => log.push(Ok(n)),
            Some(NumberOutcome::Cancel) => log.push(Err(Error::Cancel)),
            Some(NumberOutcome::Invalid) | None => {}
        }
    }
}

#[test]
fn number_rejects_invalid_chars_and_submits_parsed_value() {
    let number = Number::<i32> { default_value: None };
    let mut cursor = StringCursor::default();
    let mut log = Vec::new();
    let typed: Vec<KeyboardInput> = "12a".chars().map(keyboard_char).collect();
    run_number(&number, &mut cursor, &typed, &mut log);
    assert_eq!(cursor.value, "12");

    run_number(
        &number,
        &mut cursor,
        &[
            keyboard_key(Key::ArrowLeft),
            keyboard_key(Key::ArrowLeft),
            keyboard_char('-'),
            keyboard_key(Key::Enter),
        ],
        &mut log,
    );

    assert_eq!(submitted(log).unwrap(), -12);
}

#[test]
fn number_submits_default_value_when_empty() {
    let number = Number::<i32> { default_value: Some(7) };
    let mut cursor = StringCursor::default();
    let mut log = Vec::new();
    run_number(&number, &mut cursor, &[keyboard_key(Key::Enter)], &mut log);

    assert_eq!(submitted(log).unwrap(), 7);
}

#[test]
fn confirm_selects_and_submits_boolean_choice() {
    let entity = Entity(1);
    let focus = Focus { focus: Some(entity) };
    let mut confirm = Confirm { yes: false };
    let mut log = Vec::new();

    log.extend(confirm_controller(&mut confirm, entity, &focus, &press(KeyCode::KeyY)));
    assert!(confirm.yes);
    log.extend(confirm_controller(&mut confirm, entity, &focus, &press(KeyCode::Enter)));

    assert!(submitted(log).unwrap());
}

#[test]
fn toggle_selects_and_submits_index() {
    let entity = Entity(1);
    let mut focus = focus_param(&[entity], entity);
    let mut toggle = Toggle::new("Mode:", ["Easy", "Hard"]);
    let mut log = Vec::new();

    log.extend(toggle_controller(&mut toggle, entity, &mut focus, &press(KeyCode::KeyL)).0);
    assert_eq!(toggle.index, 1);
    log.extend(toggle_controller(&mut toggle, entity, &mut focus, &press(KeyCode::Enter)).0);

    assert_eq!(submitted(log).unwrap(), 1);
}

#[test]
fn toggle_cancel_submits_typed_cancel() {
    let entity = Entity(1);
    let mut focus = focus_param(&[entity], entity);
    let mut toggle = Toggle::new("Mode:", ["Easy", "Hard"]);
    let log = toggle_controller(&mut toggle, entity, &mut focus, &press(KeyCode::Escape)).0;

    assert!(matches!(submitted(log), Err(Error::Cancel)));
}

#[test]
fn checkbox_group_toggles_children_and_submits_all_states() {
    let boxes = [Entity(1), Entity(2), Entity(3)];
    let mut states = [Checkbox { checked: false }; 3];
    let mut log = Vec::new();

    let mut update = |focused: Entity, key: KeyCode, states: &mut [Checkbox; 3]| {
        let focus = Focus { focus: Some(focused) };
        let input = press(key);
        for (id, checkbox) in boxes.iter().zip(states.iter_mut()) {
            checkbox_controller(checkbox, *id, &focus, &input);
        }
        let children: Vec<(Entity, Option<Checkbox>)> =
            boxes.iter().zip(states.iter()).map(|(id, c)| (*id, Some(*c))).collect();
        log.extend(checkbox_group_controller(&children, &focus, &input));
    };
    update(boxes[0], KeyCode::Space, &mut states);
    update(boxes[1], KeyCode::KeyY, &mut states);
    update(boxes[2], KeyCode::KeyN, &mut states);
    update(boxes[2], KeyCode::Enter, &mut states);

    assert_eq!(submitted(log).unwrap(), vec![true, true, false]);
}

#[test]
fn radio_group_keeps_single_selection_and_submits_index() {
    let group = Entity(10);
    let ids = [Entity(1), Entity(2), Entity(3)];
    let mut radios: Vec<RadioEntry> = ids
        .iter()
        .map(|id| RadioEntry { id: *id, radio: Radio { checked: false }, parent: Some(group) })
        .collect();

    radio_controller(&mut radios, &Focus { focus: Some(ids[0]) }, &press(KeyCode::Space));
    radio_controller(&mut radios, &Focus { focus: Some(ids[1]) }, &press(KeyCode::Space));
    assert!(!radios[0].radio.checked);
    assert!(radios[1].radio.checked);

    let children: Vec<(Entity, Option<Radio>)> = radios.iter().map(|r| (r.id, Some(r.radio))).collect();
    let (log, _feedback) = radio_group_controller(&children, &Focus { focus: Some(ids[1]) }, &press(KeyCode::Enter));

    assert_eq!(submitted(log).unwrap(), 1);
}
