//! The ascii view: a prompt is one line of text sections, one per part.
use crate::prompt::checkbox::Checkbox;
use crate::prompt::confirm::Confirm;
use crate::prompt::radio::Radio;
use crate::prompt::toggle::Toggle;
use crate::prompt::{feedback_text, Feedback, Placeholder};
use crate::string_cursor::StringCursor;
use crate::utf8_text::byte_len;
use crate::view::{repeat, repeat_str};
use vstd::prelude::*;
use vstd::string::StringExecFns;

verus! {

/// The text sections of an ascii view, in order.
#[derive(Debug, Clone, Copy, PartialEq, Eq, Structural)]
pub enum ViewPart {
    Focus,
    PreQuestion,
    Question,
    Answer,
    Options,
    Feedback,
}

/// The position of a part's section in the line.
pub open spec fn part_index(part: ViewPart) -> usize {
    match part {
        ViewPart::Focus => 0,
        ViewPart::PreQuestion => 1,
        ViewPart::Question => 2,
        ViewPart::Answer => 3,
        ViewPart::Options => 4,
        ViewPart::Feedback => 5,
    }
}

impl ViewPart {
    /// The position of this part's section in the line.
    pub fn index(self) -> (r: usize)
        ensures
            r == part_index(self),
    {
        match self {
            ViewPart::Focus => 0,
            ViewPart::PreQuestion => 1,
            ViewPart::Question => 2,
            ViewPart::Answer => 3,
            ViewPart::Options => 4,
            ViewPart::Feedback => 5,
        }
    }
}

/// The options of a confirmation: both, with the selected one in capitals,
/// while it has the focus; only the answer otherwise.
pub fn confirm_view(confirm: &Confirm, focused: bool) -> (r: &'static str)
    ensures
        r@ == (if focused {
            if confirm.yes {
                " no/YES"@
            } else {
                " NO/yes"@
            }
        } else if confirm.yes {
            " Yes"@
        } else {
            " No"@
        }),
{
    if focused {
        if confirm.yes {
            " no/YES"
        } else {
            " NO/yes"
        }
    } else if confirm.yes {
        " Yes"
    } else {
        " No"
    }
}

/// The box in front of a checkbox.
pub fn checkbox_view(checkbox: &Checkbox) -> (r: &'static str)
    ensures
        r@ == (if checkbox.checked {
            "[x] "@
        } else {
            "[ ] "@
        }),
{
    if checkbox.checked {
        "[x] "
    } else {
        "[ ] "
    }
}

/// The marker in front of the focused prompt.
pub fn focus_view(focused: bool) -> (r: &'static str)
    ensures
        r@ == (if focused {
            "> "@
        } else {
            "  "@
        }),
{
    if focused {
        "> "
    } else {
        "  "
    }
}

/// The feedback after a space.
pub fn feedback_view(feedback: &Feedback) -> (r: String)
    ensures
        r@ == " "@ + feedback_text(feedback.kind, feedback.message@),
{
    let t = feedback.to_text();
    String::from_str(" ").concat(t.as_str())
}

/// The circle in front of a radio button.
pub fn radio_view(radio: &Radio) -> (r: &'static str)
    ensures
        r@ == (if radio.checked {
            "(o) "@
        } else {
            "( ) "@
        }),
{
    if radio.checked {
        "(o) "
    } else {
        "( ) "
    }
}

/// The options of a toggle: both, with the selected one in brackets and the
/// other between underscores, while it has the focus; only the selected one
/// otherwise.
pub fn toggle_view(toggle: &Toggle, focused: bool) -> (r: String)
    requires
        focused || toggle.index < 2,
    ensures
        r@ == (if focused {
            if toggle.index == 0 {
                " ["@ + toggle.options@[0]@ + "] _"@ + toggle.options@[1]@ + "_"@
            } else {
                " _"@ + toggle.options@[0]@ + "_ ["@ + toggle.options@[1]@ + "]"@
            }
        } else {
            " "@ + toggle.options@[toggle.index as int]@
        }),
{
    let o0 = toggle.options[0].as_str();
    let o1 = toggle.options[1].as_str();
    if focused {
        if toggle.index == 0 {
            String::from_str(" [").concat(o0).concat("] _").concat(o1).concat("_")
        } else {
            String::from_str(" _").concat(o0).concat("_ [").concat(o1).concat("]")
        }
    } else {
        String::from_str(" ").concat(toggle.options[toggle.index].as_str())
    }
}

/// The placeholder is shown, in brackets, while the value is empty.
pub open spec fn shows_placeholder(value: Seq<char>, has_placeholder: bool) -> bool {
    value.len() == 0 && has_placeholder
}

/// The answer of a text prompt: its value, or its placeholder in brackets.
pub fn text_view(cursor: &StringCursor, placeholder: Option<&Placeholder>) -> (r: String)
    ensures
        r@ == (if shows_placeholder(cursor.value@, placeholder is Some) {
            "["@ + placeholder.unwrap().0@ + "]"@
        } else {
            cursor.value@
        }),
{
    match placeholder {
        Some(p) if cursor.value.as_str().is_empty() => {
            String::from_str("[").concat(p.0.as_str()).concat("]")
        },
        _ => cursor.value.clone(),
    }
}

/// The answer of a password prompt: a star for each byte of its value, or
/// its placeholder in brackets.
pub fn password_view(cursor: &StringCursor, placeholder: Option<&Placeholder>) -> (r: String)
    requires
        byte_len(cursor.value@) <= usize::MAX,
    ensures
        r@ == (if shows_placeholder(cursor.value@, placeholder is Some) {
            "["@ + placeholder.unwrap().0@ + "]"@
        } else {
            repeat("*"@, byte_len(cursor.value@))
        }),
{
    match placeholder {
        Some(p) if cursor.value.as_str().is_empty() => {
            String::from_str("[").concat(p.0.as_str()).concat("]")
        },
        _ => repeat_str("*", cursor.value.as_str().len()),
    }
}

} // verus!
