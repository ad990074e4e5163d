use bevy_asky::prompt::checkbox::Checkbox;
use bevy_asky::prompt::confirm::Confirm;
use bevy_asky::prompt::radio::Radio;
use bevy_asky::prompt::toggle::Toggle;
use bevy_asky::prompt::{Feedback, Placeholder};
use bevy_asky::string_cursor::{InputDirection, StringCursor};
use bevy_asky::view::ascii::{self, ViewPart as AsciiPart};
use bevy_asky::view::click::{button_click, Interaction};
use bevy_asky::view::color::{self, ChildSlot, PaletteColor, ViewPart};
use bevy_asky::view::{repeat_str, replace_or_insert, replace_or_insert_rep, PromptPart, TextSection};
use bevy_asky::view::click::ClickRecord;
use bevy_asky::Entity;

fn cursor_with(value: &str, lefts: usize) -> StringCursor {
    let mut c = StringCursor::default();
    c.set_value(value);
    for _ in 0..lefts {
        c.move_cursor(InputDirection::Left);
    }
    c
}

fn values(sections: &[TextSection<u8>]) -> Vec<(&str, u8)> {
    sections.iter().map(|t| (t.value.as_str(), t.style)).collect()
}

#[test]
fn replace_or_insert_fills_gap_and_puts_text_at_index() {
    let mut sections: Vec<TextSection<u8>> = Vec::new();
    replace_or_insert(&mut sections, 2, "x", 0);
    assert_eq!(values(&sections), vec![("", 0), ("", 0), ("x", 0)]);
    sections[0].style = 7;
    replace_or_insert(&mut sections, 0, "a", 0);
    assert_eq!(values(&sections), vec![("a", 7), ("", 0), ("x", 0)]);
    replace_or_insert(&mut sections, 4, "z", 3);
    assert_eq!(values(&sections), vec![("a", 7), ("", 0), ("x", 0), ("", 3), ("z", 3)]);
}

#[test]
fn replace_or_insert_rep_repeats() {
    let mut sections = vec![TextSection { value: "old".to_string(), style: 5u8 }];
    replace_or_insert_rep(&mut sections, 0, "*", 3, 0);
    assert_eq!(values(&sections), vec![("***", 5)]);
    replace_or_insert_rep(&mut sections, 1, "ab", 2, 0);
    assert_eq!(values(&sections), vec![("***", 5), ("abab", 0)]);
    replace_or_insert_rep(&mut sections, 0, "q", 0, 0);
    assert_eq!(sections[0].value, "");
    assert_eq!(repeat_str("é", 2), "éé");
}

#[test]
fn click_record_remembers_last_interaction() {
    let mut record = ClickRecord::new();
    let a = Entity(1);
    let b = Entity(2);
    assert!(!record.interaction_changed(a, Interaction::Hovered));
    assert!(!record.interaction_changed(a, Interaction::Pressed));
    assert!(!record.interaction_changed(b, Interaction::Hovered));
    assert!(record.interaction_changed(a, Interaction::Hovered));
    assert!(!record.interaction_changed(a, Interaction::Hovered));
    assert!(!record.interaction_changed(b, Interaction::Pressed));
    assert!(!record.interaction_changed(b, Interaction::Idle));
    assert!(!record.interaction_changed(b, Interaction::Hovered));
    assert_eq!(record.entries.len(), 2);
}

#[test]
fn prompt_part_from_usize() {
    assert_eq!(PromptPart::from_usize(0), Some(PromptPart::Question));
    assert_eq!(PromptPart::from_usize(3), Some(PromptPart::Cursor));
    assert_eq!(PromptPart::from_usize(4), Some(PromptPart::PostCursor));
    assert_eq!(PromptPart::from_usize(5), None);
}

#[test]
fn ascii_markers() {
    assert_eq!(ascii::focus_view(true), "> ");
    assert_eq!(ascii::focus_view(false), "  ");
    assert_eq!(ascii::checkbox_view(&Checkbox { checked: true }), "[x] ");
    assert_eq!(ascii::checkbox_view(&Checkbox { checked: false }), "[ ] ");
    assert_eq!(ascii::radio_view(&Radio { checked: true }), "(o) ");
    assert_eq!(ascii::radio_view(&Radio { checked: false }), "( ) ");
    assert_eq!(AsciiPart::Options.index(), 4);
    assert_eq!(AsciiPart::Feedback.index(), 5);
}

#[test]
fn ascii_confirm_view() {
    assert_eq!(ascii::confirm_view(&Confirm { yes: true }, true), " no/YES");
    assert_eq!(ascii::confirm_view(&Confirm { yes: false }, true), " NO/yes");
    assert_eq!(ascii::confirm_view(&Confirm { yes: true }, false), " Yes");
    assert_eq!(ascii::confirm_view(&Confirm { yes: false }, false), " No");
}

#[test]
fn ascii_toggle_view() {
    let mut toggle = Toggle::new("Mode:", ["Easy", "Hard"]);
    assert_eq!(ascii::toggle_view(&toggle, true), " [Easy] _Hard_");
    assert_eq!(ascii::toggle_view(&toggle, false), " Easy");
    toggle.index = 1;
    assert_eq!(ascii::toggle_view(&toggle, true), " _Easy_ [Hard]");
    assert_eq!(ascii::toggle_view(&toggle, false), " Hard");
}

#[test]
fn ascii_text_and_password_views() {
    let empty = StringCursor::default();
    let placeholder = Placeholder("name".to_string());
    assert_eq!(ascii::text_view(&empty, Some(&placeholder)), "[name]");
    assert_eq!(ascii::text_view(&empty, None), "");
    let typed = cursor_with("ñu", 0);
    assert_eq!(ascii::text_view(&typed, Some(&placeholder)), "ñu");
    assert_eq!(ascii::password_view(&typed, Some(&placeholder)), "***");
    assert_eq!(ascii::password_view(&empty, Some(&placeholder)), "[name]");
}

#[test]
fn ascii_feedback_view() {
    assert_eq!(ascii::feedback_view(&Feedback::warn("careful")), " warn: careful");
    assert_eq!(ascii::feedback_view(&Feedback::info("fyi")), " fyi");
    let mut f = Feedback::error("bad");
    assert_eq!(ascii::feedback_view(&f), " error: bad");
    f.clear();
    assert_eq!(ascii::feedback_view(&f), " ");
}

#[test]
fn color_text_view_splits_at_cursor() {
    let c = cursor_with("abc", 2);
    let parts = color::text_view(&c, None);
    assert_eq!(parts.pre, "a");
    assert_eq!(parts.cursor, "b");
    assert_eq!(parts.post, "c");
    assert_eq!(parts.post_color, PaletteColor::TextColor);

    let end = cursor_with("aé", 0);
    let parts = color::text_view(&end, None);
    assert_eq!(parts.pre, "aé");
    assert_eq!(parts.cursor, " ");
    assert_eq!(parts.post, "");
}

#[test]
fn law_text_view_shows_value_example() {
    for lefts in 0..4 {
        let c = cursor_with("xé😀", lefts);
        let parts = color::text_view(&c, Some(&Placeholder("hint".to_string())));
        let shown = if c.index < c.value.len() {
            format!("{}{}{}", parts.pre, parts.cursor, parts.post)
        } else {
            format!("{}{}", parts.pre, parts.post)
        };
        assert_eq!(shown, "xé😀");
    }
}

#[test]
fn color_text_view_placeholder() {
    let empty = StringCursor::default();
    let parts = color::text_view(&empty, Some(&Placeholder("Ñame".to_string())));
    assert_eq!(parts.pre, "");
    assert_eq!(parts.cursor, "Ñ");
    assert_eq!(parts.post, "ame");
    assert_eq!(parts.post_color, PaletteColor::Lowlight);
    let parts = color::text_view(&empty, Some(&Placeholder(String::new())));
    assert_eq!(parts.cursor, "");
    assert_eq!(parts.post, "");
}

#[test]
fn color_opaque_view_masks_by_bytes() {
    let c = cursor_with("aéb", 1);
    let parts = color::opaque_view(&c, None);
    assert_eq!(parts.pre, "***");
    assert_eq!(parts.cursor, "*");
    assert_eq!(parts.post, "");
    let c = cursor_with("abcd", 3);
    let parts = color::opaque_view(&c, None);
    assert_eq!(parts.pre, "*");
    assert_eq!(parts.cursor, "*");
    assert_eq!(parts.post, "**");
    let end = cursor_with("ab", 0);
    let parts = color::opaque_view(&end, None);
    assert_eq!(parts.cursor, " ");
    let parts = color::opaque_view(&StringCursor::default(), Some(&Placeholder("pw".to_string())));
    assert_eq!(parts.cursor, "p");
    assert_eq!(parts.post, "w");
    assert_eq!(parts.post_color, PaletteColor::Lowlight);
}

#[test]
fn color_markers_and_options() {
    assert_eq!(color::checkbox_view(&Checkbox { checked: true }, true), ("[x] ", PaletteColor::Highlight));
    assert_eq!(color::radio_view(&Radio { checked: false }, false), ("( ) ", PaletteColor::TextColor));
    assert_eq!(color::radio_view(&Radio { checked: true }, true), ("(x) ", PaletteColor::Highlight));
    let (a, ac, b, bc) = color::option_view(&Confirm { yes: true });
    assert_eq!((a.as_str(), ac, b.as_str(), bc), ("No", PaletteColor::Lowlight, "Yes", PaletteColor::Highlight));
    let (a, ac, b, bc) = color::option_view(&Toggle::new("m", ["One", "Two"]));
    assert_eq!((a.as_str(), ac, b.as_str(), bc), ("One", PaletteColor::Highlight, "Two", PaletteColor::Lowlight));
}

#[test]
fn color_slots() {
    assert_eq!(ViewPart::Answer.text_slot(), (0, 3));
    assert_eq!(ViewPart::Toggle1.text_slot(), (3, 0));
    assert_eq!(ViewPart::Feedback.text_slot(), (4, 0));
    assert_eq!(ViewPart::Question.entity_slot(), (0, Some(1)));
    assert_eq!(ViewPart::Cursor.entity_slot(), (2, None));
    assert_eq!(color::child_slot(Some(3), 1), ChildSlot::Existing(1));
    assert_eq!(color::child_slot(Some(3), 5), ChildSlot::Spawn(2));
    assert_eq!(color::child_slot(None, 2), ChildSlot::Spawn(2));
}

#[test]
fn cursor_blink() {
    assert_eq!(color::blink_step(0), 1);
    assert_eq!(color::blink_step(255), 0);
    assert!(color::cursor_shown(0));
    assert!(!color::cursor_shown(1));
}

#[test]
fn click_needs_press_then_hover() {
    assert!(button_click(Some(Interaction::Pressed), Interaction::Hovered));
    assert!(!button_click(None, Interaction::Hovered));
    assert!(!button_click(Some(Interaction::Hovered), Interaction::Hovered));
    assert!(!button_click(Some(Interaction::Pressed), Interaction::Idle));
}
