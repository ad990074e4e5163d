use bevy_asky::prompt::input::{Direction, LineInput, TextInput};
use bevy_asky::prompt::{Feedback, FeedbackKind};
use bevy_asky::{Entity, Error, Submit, SubmitState};

#[test]
fn law_result_taken_once_example() {
    let mut s = Submit::new(Entity(1), Ok::<u32, Error>(5));
    assert!(matches!(s.event(), SubmitState::Unhandled(Ok(5))));
    assert_eq!(s.take_result(), Ok(5));
    assert_eq!(s.take_result(), Err(Error::SubmitHandled));
    assert!(matches!(s.event_mut(), SubmitState::Handled));
    assert_eq!(s.entity, Entity(1));
}

#[test]
fn error_messages() {
    assert_eq!(Error::Cancel.message(), "canceled");
    assert_eq!(Error::InvalidInput.message(), "invalid input");
    assert_eq!(Error::InvalidNumber.message(), "invalid number");
    assert_eq!(Error::ValidationFail.message(), "validation fail");
    assert_eq!(Error::SubmitHandled.message(), "submit handled");
}

#[test]
fn feedback_text() {
    assert_eq!(Feedback::info("hi").to_text(), "hi");
    assert_eq!(Feedback::warn("w").to_text(), "warn: w");
    assert_eq!(Feedback::error("e").to_text(), "error: e");
    let mut f = Feedback::error("e");
    f.clear();
    assert_eq!(f.kind, FeedbackKind::Empty);
    assert_eq!(f.to_text(), "");
    assert_eq!(FeedbackKind::Warn.as_str(), "warn");
    assert_eq!(FeedbackKind::Empty.as_str(), "NONE");
}

#[test]
fn line_input_edits_by_column() {
    let mut l = LineInput::default();
    l.set_value("ab");
    assert_eq!(l.col, 2);
    l.move_cursor(Direction::Left);
    assert_eq!(l.col, 1);
    l.insert('x');
    assert_eq!(l.value, "axb");
    assert_eq!(l.col, 2);
    l.backspace();
    assert_eq!(l.value, "ab");
    assert_eq!(l.col, 1);
    l.delete();
    assert_eq!(l.value, "a");
    l.move_cursor(Direction::Right);
    assert_eq!(l.col, 1);
}

#[test]
fn text_input_builders() {
    let mut t = TextInput::new("Name?");
    t.placeholder("anon").default("Bob");
    assert_eq!(t.message, "Name?");
    assert_eq!(t.placeholder, Some("anon".to_string()));
    assert_eq!(t.default_value, Some("Bob".to_string()));
}

#[test]
fn law_line_backspace_undoes_insert_example() {
    let mut l = LineInput::default();
    l.set_value("abc");
    l.move_cursor(Direction::Left);
    let (value, col) = (l.value.clone(), l.col);
    l.insert('z');
    assert_eq!(l.value, "abzc");
    l.backspace();
    assert_eq!((l.value.as_str(), l.col), (value.as_str(), col));
}
