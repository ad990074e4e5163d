use bevy_asky::focus::{FocusParam, Focusable};
use bevy_asky::keys::{ButtonState, Key, KeyboardInput};
use bevy_asky::prompt::number::{
    is_valid, number_controller, number_key, number_key_edit, number_step, parse_decimal, NumLike, Number,
    NumberKey, NumberOutcome,
};
use bevy_asky::prompt::text::{text_controller, text_key};
use bevy_asky::prompt::FeedbackKind;
use bevy_asky::string_cursor::StringCursor;
use bevy_asky::{Entity, Error};

fn char_event(c: char) -> KeyboardInput {
    KeyboardInput { logical_key: Key::Character(c.to_string()), state: ButtonState::Pressed }
}

fn key_event(key: Key) -> KeyboardInput {
    KeyboardInput { logical_key: key, state: ButtonState::Pressed }
}

#[test]
fn test_text_field_key_presses() {
    let mut cursor = StringCursor::default();
    for c in "Hello".chars() {
        text_key(&mut cursor, &char_event(c));
    }
    assert_eq!(cursor.value, "Hello");
    assert_eq!(cursor.index, 5);

    text_key(&mut cursor, &key_event(Key::Backspace));
    assert_eq!(cursor.value, "Hell");
    assert_eq!(cursor.index, 4);

    text_key(&mut cursor, &key_event(Key::ArrowLeft));
    assert_eq!(cursor.value, "Hell");
    assert_eq!(cursor.index, 3);

    text_key(&mut cursor, &key_event(Key::Delete));
    assert_eq!(cursor.value, "Hel");
    assert_eq!(cursor.index, 3);

    text_key(&mut cursor, &key_event(Key::Space));
    assert_eq!(cursor.value, "Hel ");
    assert_eq!(cursor.index, 4);
}

#[test]
fn test_password_key_presses() {
    let entity = Entity(1);
    let mut prompts = vec![(entity, StringCursor::default())];
    let mut focus = FocusParam { entries: vec![(entity, Focusable::new(0))], focus: Some(entity), keyboard_nav: true };

    let typed: Vec<KeyboardInput> = "Password123".chars().map(char_event).collect();
    text_controller(&mut prompts, &mut focus, &typed);
    assert_eq!(prompts[0].1.value, "Password123");
    assert_eq!(prompts[0].1.index, 11);

    text_controller(&mut prompts, &mut focus, &[key_event(Key::Backspace)]);
    assert_eq!(prompts[0].1.value, "Password12");
    assert_eq!(prompts[0].1.index, 10);

    text_controller(&mut prompts, &mut focus, &[key_event(Key::ArrowLeft), key_event(Key::ArrowLeft)]);
    assert_eq!(prompts[0].1.value, "Password12");
    assert_eq!(prompts[0].1.index, 8);

    text_controller(&mut prompts, &mut focus, &[key_event(Key::Delete)]);
    assert_eq!(prompts[0].1.value, "Password2");
    assert_eq!(prompts[0].1.index, 8);

    text_controller(&mut prompts, &mut focus, &[key_event(Key::ArrowRight)]);
    assert_eq!(prompts[0].1.index, 9);

    text_controller(&mut prompts, &mut focus, &[char_event('@'), char_event('#')]);
    assert_eq!(prompts[0].1.value, "Password2@#");
    assert_eq!(prompts[0].1.index, 11);

    text_controller(&mut prompts, &mut focus, &[key_event(Key::Enter)]);
    assert_eq!(prompts[0].1.value, "Password2@#");

    text_controller(&mut prompts, &mut focus, &[key_event(Key::Escape)]);
    assert_eq!(prompts[0].1.value, "Password2@#");
}

#[test]
fn test_number_key_presses() {
    let number = Number::<i32> { default_value: None };
    let mut cursor = StringCursor::default();

    for c in "123".chars() {
        number_key(&number, &mut cursor, &char_event(c));
    }
    assert_eq!(cursor.value, "123");
    assert_eq!(cursor.index, 3);

    number_key(&number, &mut cursor, &char_event('a'));
    assert_eq!(cursor.value, "123");
    assert_eq!(cursor.index, 3);

    for _ in 0..3 {
        number_key(&number, &mut cursor, &key_event(Key::ArrowLeft));
    }
    assert_eq!(cursor.index, 0);

    number_key(&number, &mut cursor, &char_event('-'));
    assert_eq!(cursor.value, "-123");
    assert_eq!(cursor.index, 1);

    number_key(&number, &mut cursor, &key_event(Key::Backspace));
    assert_eq!(cursor.value, "123");
    assert_eq!(cursor.index, 0);

    number_key(&number, &mut cursor, &key_event(Key::ArrowRight));
    assert_eq!(cursor.index, 1);

    number_key(&number, &mut cursor, &key_event(Key::Delete));
    assert_eq!(cursor.value, "13");
    assert_eq!(cursor.index, 1);

    let outcome = number_key(&number, &mut cursor, &key_event(Key::Enter));
    assert_eq!(outcome, Some(NumberOutcome::Submit(13)));
    assert_eq!(cursor.value, "13");
}

#[test]
fn test_number_f32_key_presses() {
    // A floating-point prompt takes a sign and one decimal point.
    let (signed, float) = (true, true);
    let mut cursor = StringCursor::default();
    for c in "123.45".chars() {
        number_key_edit(&mut cursor, signed, float, &char_event(c));
    }
    assert_eq!(cursor.value, "123.45");
    assert_eq!(cursor.index, 6);

    number_key_edit(&mut cursor, signed, float, &char_event('a'));
    assert_eq!(cursor.value, "123.45");
    assert_eq!(cursor.index, 6);

    for _ in 0..6 {
        number_key_edit(&mut cursor, signed, float, &key_event(Key::ArrowLeft));
    }
    assert_eq!(cursor.index, 0);

    number_key_edit(&mut cursor, signed, float, &char_event('-'));
    assert_eq!(cursor.value, "-123.45");
    assert_eq!(cursor.index, 1);

    number_key_edit(&mut cursor, signed, float, &key_event(Key::Backspace));
    assert_eq!(cursor.value, "123.45");
    assert_eq!(cursor.index, 0);

    for _ in 0..4 {
        number_key_edit(&mut cursor, signed, float, &key_event(Key::ArrowRight));
    }
    assert_eq!(cursor.index, 4);

    number_key_edit(&mut cursor, signed, float, &key_event(Key::Delete));
    assert_eq!(cursor.value, "123.5");
    assert_eq!(cursor.index, 4);

    number_key_edit(&mut cursor, signed, float, &key_event(Key::ArrowRight));
    assert_eq!(cursor.index, 5);

    number_key_edit(&mut cursor, signed, float, &char_event('e'));
    assert_eq!(cursor.value, "123.5");
    assert_eq!(cursor.index, 5);

    number_key_edit(&mut cursor, signed, float, &char_event('.'));
    assert_eq!(cursor.value, "123.5");
    assert_eq!(cursor.index, 5);

    let key = number_key_edit(&mut cursor, signed, float, &key_event(Key::Enter));
    assert_eq!(key, NumberKey::Enter);
    assert_eq!(cursor.value, "123.5");
    assert_eq!(cursor.value.parse::<f32>(), Ok(123.5f32));
}

#[test]
fn text_released_keys_do_nothing() {
    let mut cursor = StringCursor::default();
    let ev = KeyboardInput { logical_key: Key::Character("x".to_string()), state: ButtonState::Released };
    assert_eq!(text_key(&mut cursor, &ev), None);
    assert_eq!(cursor.value, "");
}

#[test]
fn text_key_typing_a_string_inserts_all_chars() {
    let mut cursor = StringCursor::default();
    text_key(&mut cursor, &char_event('a'));
    text_key(&mut cursor, &key_event(Key::ArrowLeft));
    text_key(&mut cursor, &KeyboardInput { logical_key: Key::Character("éz".to_string()), state: ButtonState::Pressed });
    assert_eq!(cursor.value, "éza");
    assert_eq!(cursor.index, 3);
    assert_eq!(text_key(&mut cursor, &key_event(Key::Enter)), Some(Ok("éza".to_string())));
    assert_eq!(text_key(&mut cursor, &key_event(Key::Escape)), Some(Err(Error::Cancel)));
}

#[test]
fn text_controller_feeds_only_first_focused_prompt() {
    let a = Entity(1);
    let b = Entity(2);
    let mut prompts = vec![(a, StringCursor::default()), (b, StringCursor::default())];
    let mut focus = FocusParam {
        entries: vec![(a, Focusable::new(0)), (b, Focusable::new(1))],
        focus: Some(b),
        keyboard_nav: true,
    };
    let submits = text_controller(&mut prompts, &mut focus, &[char_event('q'), key_event(Key::Enter)]);
    assert_eq!(prompts[0].1.value, "");
    assert_eq!(prompts[1].1.value, "q");
    assert_eq!(submits, vec![(b, Ok("q".to_string()))]);
    assert!(!focus.keyboard_nav);

    focus.focus = Some(Entity(7));
    let submits = text_controller(&mut prompts, &mut focus, &[char_event('r')]);
    assert!(submits.is_empty());
    assert!(focus.keyboard_nav);
    assert_eq!(prompts[1].1.value, "q");
}

#[test]
fn number_empty_without_default_is_invalid() {
    let number = Number::<u8> { default_value: None };
    let mut cursor = StringCursor::default();
    assert_eq!(number_key(&number, &mut cursor, &key_event(Key::Enter)), Some(NumberOutcome::Invalid));
    assert_eq!(number_key(&number, &mut cursor, &key_event(Key::Escape)), Some(NumberOutcome::Cancel));
}

#[test]
fn number_out_of_range_is_invalid() {
    let number = Number::<i8> { default_value: None };
    let mut cursor = StringCursor::default();
    for c in "128".chars() {
        number_key(&number, &mut cursor, &char_event(c));
    }
    assert_eq!(number_key(&number, &mut cursor, &key_event(Key::Enter)), Some(NumberOutcome::Invalid));
    number_key(&number, &mut cursor, &key_event(Key::ArrowLeft));
    number_key(&number, &mut cursor, &key_event(Key::ArrowLeft));
    number_key(&number, &mut cursor, &key_event(Key::ArrowLeft));
    number_key(&number, &mut cursor, &char_event('-'));
    assert_eq!(cursor.value, "-128");
    assert_eq!(number_key(&number, &mut cursor, &key_event(Key::Enter)), Some(NumberOutcome::Submit(-128i8)));
}

#[test]
fn number_unsigned_rejects_sign_key() {
    let number = Number::<u32> { default_value: None }.default(5);
    assert_eq!(number.default_value, Some(5));
    let mut cursor = StringCursor::default();
    number_key(&number, &mut cursor, &char_event('-'));
    assert_eq!(cursor.value, "");
    assert_eq!(number_key(&number, &mut cursor, &key_event(Key::Enter)), Some(NumberOutcome::Submit(5)));
}

#[test]
fn number_space_is_typed_and_makes_text_invalid() {
    let number = Number::<i64> { default_value: None };
    let mut cursor = StringCursor::default();
    number_key(&number, &mut cursor, &char_event('4'));
    number_key(&number, &mut cursor, &key_event(Key::Space));
    assert_eq!(cursor.value, "4 ");
    assert_eq!(number_key(&number, &mut cursor, &key_event(Key::Enter)), Some(NumberOutcome::Invalid));
}

#[test]
fn parse_decimal_follows_integer_syntax() {
    assert_eq!(parse_decimal("42", false, 0, 255), Some(42));
    assert_eq!(parse_decimal("+42", false, 0, 255), Some(42));
    assert_eq!(parse_decimal("-0", false, 0, 255), None);
    assert_eq!(parse_decimal("-42", true, -128, 127), Some(-42));
    assert_eq!(parse_decimal("-", true, -128, 127), None);
    assert_eq!(parse_decimal("+", true, -128, 127), None);
    assert_eq!(parse_decimal("", true, -128, 127), None);
    assert_eq!(parse_decimal("256", false, 0, 255), None);
    assert_eq!(parse_decimal("007", true, -128, 127), Some(7));
    assert_eq!(parse_decimal("1_0", true, -128, 127), None);
    assert_eq!(parse_decimal(" 1", true, -128, 127), None);
    assert_eq!(parse_decimal("99999999999999999999999", true, -128, 127), None);
}

#[test]
fn numlike_parse_matches_std() {
    for s in ["0", "255", "256", "-1", "+7", "", "12a", "-128", "-129", "127"] {
        assert_eq!(<u8 as NumLike>::parse(s), s.parse::<u8>().ok());
        assert_eq!(<i8 as NumLike>::parse(s), s.parse::<i8>().ok());
    }
    for s in ["18446744073709551615", "18446744073709551616", "-9223372036854775808", "9223372036854775808"] {
        assert_eq!(<u64 as NumLike>::parse(s), s.parse::<u64>().ok());
        assert_eq!(<i64 as NumLike>::parse(s), s.parse::<i64>().ok());
        assert_eq!(<usize as NumLike>::parse(s), s.parse::<usize>().ok());
        assert_eq!(<isize as NumLike>::parse(s), s.parse::<isize>().ok());
    }
    assert_eq!(<i16 as NumLike>::parse("-32768"), Some(i16::MIN));
    assert_eq!(<u16 as NumLike>::parse("65536"), None);
    assert_eq!(<i32 as NumLike>::parse("2147483647"), Some(i32::MAX));
    assert_eq!(<u32 as NumLike>::parse("4294967295"), Some(u32::MAX));
    assert!(<i32 as NumLike>::is_signed());
    assert!(!<u32 as NumLike>::is_signed());
}

#[test]
fn number_char_validity() {
    let mut cursor = StringCursor::default();
    assert!(is_valid(true, false, '-', &cursor));
    assert!(!is_valid(false, false, '-', &cursor));
    assert!(!is_valid(true, false, '.', &cursor));
    assert!(is_valid(true, true, '.', &cursor));
    cursor.insert('1');
    assert!(!is_valid(true, true, '+', &cursor));
    cursor.insert('.');
    assert!(!is_valid(true, true, '.', &cursor));
    assert!(is_valid(false, false, '9', &cursor));
    assert!(!is_valid(false, false, 'x', &cursor));
}

#[test]
fn law_one_decimal_point_example() {
    let mut cursor = StringCursor::default();
    for c in "1.2.3".chars() {
        number_key_edit(&mut cursor, true, true, &char_event(c));
    }
    assert_eq!(cursor.value, "1.23");
    number_key_edit(&mut cursor, true, true, &KeyboardInput { logical_key: Key::Character("..".to_string()), state: ButtonState::Pressed });
    assert_eq!(cursor.value.matches('.').count(), 1);
}

#[test]
fn text_field_appends_typed_character() {
    let mut cursor = StringCursor::default();
    cursor.set_value("abc");
    text_key(&mut cursor, &char_event('a'));
    assert_eq!(cursor.value, "abca");
    assert_eq!(cursor.index, 4);
}

#[test]
fn number_controller_decides_feedback_and_focus() {
    let number = Number::<i16> { default_value: None };
    let mut cursor = StringCursor::default();
    let step = number_controller(&number, &mut cursor, &char_event('9'));
    assert_eq!((step.submit, step.feedback, step.block_and_move), (None, None, false));
    let step = number_controller(&number, &mut cursor, &key_event(Key::Enter));
    assert_eq!(step.submit, Some(Ok(9)));
    assert!(step.feedback.is_none());
    assert!(step.block_and_move);
    let step = number_controller(&number, &mut cursor, &key_event(Key::Escape));
    assert_eq!(step.submit, Some(Err(Error::Cancel)));
    let f = step.feedback.unwrap();
    assert_eq!((f.kind, f.message.as_str()), (FeedbackKind::Error, "canceled"));
    assert!(step.block_and_move);
    assert_eq!(cursor.value, "9");
    number_controller(&number, &mut cursor, &key_event(Key::Space));
    let step = number_controller(&number, &mut cursor, &key_event(Key::Enter));
    assert_eq!(step.submit, None);
    let f = step.feedback.unwrap();
    assert_eq!((f.kind, f.message.as_str()), (FeedbackKind::Warn, "invalid number for i16"));
    assert!(!step.block_and_move);
    let step = number_step::<u8>(Some(NumberOutcome::Invalid), "f32");
    assert_eq!(step.feedback.unwrap().message, "invalid number for f32");
}
