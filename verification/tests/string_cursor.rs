use bevy_asky::string_cursor::{ceil_char_boundary, floor_char_boundary, InputDirection, StringCursor};

#[test]
fn string_cursor_test_floor_char() {
    let s = "❤️🧡💛💚💙💜";
    assert_eq!(s.len(), 26);
    assert!(!s.is_char_boundary(13));

    let closest = floor_char_boundary(s, 13);
    assert_eq!(closest, 10);
    assert_eq!(&s[..closest], "❤️🧡");
    assert_eq!(floor_char_boundary(s, 0), 0);
    assert_eq!(floor_char_boundary(s, 26), 26);
    assert_eq!(floor_char_boundary(s, 27), 26);
}

#[test]
fn string_cursor_test_ceil_char() {
    let s = "❤️🧡💛💚💙💜";
    assert_eq!(s.len(), 26);
    assert!(!s.is_char_boundary(13));

    let closest = ceil_char_boundary(s, 13);
    assert_eq!(closest, 14);
    assert_eq!(&s[..closest], "❤️🧡💛");
    assert_eq!(ceil_char_boundary(s, 0), 0);
    assert_eq!(ceil_char_boundary(s, 26), 26);
    assert_eq!(ceil_char_boundary(s, 27), 26);
}

#[test]
fn number_test_floor_char() {
    let s = "❤️🧡💛💚💙💜";
    assert_eq!(s.len(), 26);
    assert!(!s.is_char_boundary(13));

    let closest = floor_char_boundary(s, 13);
    assert_eq!(closest, 10);
    assert_eq!(&s[..closest], "❤️🧡");
    assert_eq!(floor_char_boundary(s, 0), 0);
    assert_eq!(floor_char_boundary(s, 26), 26);
    assert_eq!(floor_char_boundary(s, 27), 26);
}

#[test]
fn number_test_ceil_char() {
    let s = "❤️🧡💛💚💙💜";
    assert_eq!(s.len(), 26);
    assert!(!s.is_char_boundary(13));

    let closest = ceil_char_boundary(s, 13);
    assert_eq!(closest, 14);
    assert_eq!(&s[..closest], "❤️🧡💛");
    assert_eq!(ceil_char_boundary(s, 0), 0);
    assert_eq!(ceil_char_boundary(s, 26), 26);
    assert_eq!(ceil_char_boundary(s, 27), 26);
}

#[test]
fn cursor_insert_multibyte_moves_by_bytes() {
    let mut c = StringCursor::default();
    c.insert('a');
    c.insert('é');
    c.insert('b');
    assert_eq!(c.value, "aéb");
    assert_eq!(c.index, 4);
    c.move_cursor(InputDirection::Left);
    assert_eq!(c.index, 3);
    c.move_cursor(InputDirection::Left);
    assert_eq!(c.index, 1);
    c.insert('x');
    assert_eq!(c.value, "axéb");
    assert_eq!(c.index, 2);
}

#[test]
fn cursor_backspace_in_middle_drains_previous_char() {
    let mut c = StringCursor::default();
    c.set_value("héllo");
    assert_eq!(c.index, 6);
    c.move_cursor(InputDirection::Left);
    c.move_cursor(InputDirection::Left);
    c.move_cursor(InputDirection::Left);
    assert_eq!(c.index, 3);
    c.backspace();
    assert_eq!(c.value, "hllo");
    assert_eq!(c.index, 1);
}

#[test]
fn cursor_backspace_at_end_pops() {
    let mut c = StringCursor::default();
    c.set_value("ok€");
    c.backspace();
    assert_eq!(c.value, "ok");
    assert_eq!(c.index, 2);
}

#[test]
fn cursor_backspace_at_start_does_nothing() {
    let mut c = StringCursor::default();
    c.set_value("ab");
    c.move_cursor(InputDirection::Left);
    c.move_cursor(InputDirection::Left);
    c.move_cursor(InputDirection::Left);
    assert_eq!(c.index, 0);
    c.backspace();
    assert_eq!(c.value, "ab");
    assert_eq!(c.index, 0);
}

#[test]
fn cursor_delete_removes_char_after_cursor() {
    let mut c = StringCursor::default();
    c.set_value("aéb");
    c.move_cursor(InputDirection::Left);
    c.move_cursor(InputDirection::Left);
    assert_eq!(c.index, 1);
    c.delete();
    assert_eq!(c.value, "ab");
    assert_eq!(c.index, 1);
    c.move_cursor(InputDirection::Right);
    c.delete();
    assert_eq!(c.value, "ab");
    assert_eq!(c.index, 2);
}

#[test]
fn cursor_moves_stop_at_both_ends() {
    let mut c = StringCursor::default();
    c.move_cursor(InputDirection::Left);
    assert_eq!(c.index, 0);
    c.move_cursor(InputDirection::Right);
    assert_eq!(c.index, 0);
    c.set_value("z");
    c.move_cursor(InputDirection::Right);
    assert_eq!(c.index, 1);
}

#[test]
fn law_backspace_undoes_insert_example() {
    let mut c = StringCursor::default();
    c.set_value("mañana");
    c.move_cursor(InputDirection::Left);
    c.move_cursor(InputDirection::Left);
    let (value, index) = (c.value.clone(), c.index);
    c.insert('ü');
    assert_ne!(c.value, value);
    c.backspace();
    assert_eq!(c.value, value);
    assert_eq!(c.index, index);
}

#[test]
fn law_right_then_left_example() {
    let mut c = StringCursor::default();
    c.set_value("💛x");
    c.move_cursor(InputDirection::Left);
    c.move_cursor(InputDirection::Left);
    assert_eq!(c.index, 0);
    c.move_cursor(InputDirection::Right);
    assert_eq!(c.index, 4);
    c.move_cursor(InputDirection::Left);
    assert_eq!(c.index, 0);
}

#[test]
fn next_and_prev_index_step_over_one_char() {
    let mut c = StringCursor::default();
    c.set_value("a💛b");
    c.move_cursor(InputDirection::Left);
    c.move_cursor(InputDirection::Left);
    assert_eq!(c.index, 1);
    assert_eq!(c.next_index(), 5);
    assert_eq!(c.prev_index(), 0);
}

#[test]
fn law_left_then_right_example() {
    let mut c = StringCursor::default();
    c.set_value("a€b");
    assert_eq!(c.index, 5);
    c.move_cursor(InputDirection::Left);
    assert_eq!(c.index, 4);
    c.move_cursor(InputDirection::Right);
    assert_eq!(c.index, 5);
    c.move_cursor(InputDirection::Left);
    c.move_cursor(InputDirection::Left);
    assert_eq!(c.index, 1);
    c.move_cursor(InputDirection::Right);
    assert_eq!(c.index, 4);
}

#[test]
fn cursor_moves_right_to_next_char_boundary() {
    let mut c = StringCursor::default();
    c.set_value("a€b");
    c.move_cursor(InputDirection::Left);
    c.move_cursor(InputDirection::Left);
    c.move_cursor(InputDirection::Left);
    assert_eq!(c.index, 0);
    c.move_cursor(InputDirection::Right);
    assert_eq!(c.index, 1);
    c.move_cursor(InputDirection::Right);
    assert_eq!(c.index, 4);
    c.move_cursor(InputDirection::Right);
    assert_eq!(c.index, 5);
    c.move_cursor(InputDirection::Right);
    assert_eq!(c.index, 5);
    assert_eq!(c.value, "a€b");
}
