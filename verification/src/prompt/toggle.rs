//! A choice between two named options.
use crate::focus::{block_entries, focus_after_move_from, FocusParam};
use crate::keys::{ButtonInput, KeyCode};
use crate::prompt::{Feedback, FeedbackKind, OptionPrompt};
use crate::{Entity, Error};
use vstd::prelude::*;

verus! {

/// Toggles between two named options
#[derive(Debug, Clone, PartialEq, Eq)]
pub struct Toggle {
    /// Prompt
    pub message: String,
    /// Options
    pub options: [String; 2],
    /// Initial toggle of the prompt
    pub index: usize,
}

impl OptionPrompt for Toggle {
    open spec fn option_name(&self, index: int) -> Seq<char> {
        self.options@[index]@
    }

    open spec fn selected(&self) -> usize {
        self.index
    }

    fn name(&self, index: usize) -> (r: &str) {
        self.options[index].as_str()
    }

    fn state(&self) -> (r: usize) {
        self.index
    }
}

impl Toggle {
    /// Make a new toggle with the first option selected.
    pub fn new(message: &str, options: [&str; 2]) -> (t: Self)
        ensures
            t.message@ == message@,
            t.options@[0]@ == options@[0]@,
            t.options@[1]@ == options@[1]@,
            t.index == 0,
    {
        Toggle {
            message: message.to_owned(),
            options: [options[0].to_owned(), options[1].to_owned()],
            index: 0,
        }
    }
}

/// The selection after the keys just pressed: H or Left select the first
/// option, then L or Right the second.
pub open spec fn toggle_index(index: usize, pressed: Seq<KeyCode>) -> usize {
    if pressed.contains(KeyCode::KeyL) || pressed.contains(KeyCode::ArrowRight) {
        1
    } else if pressed.contains(KeyCode::KeyH) || pressed.contains(KeyCode::ArrowLeft) {
        0
    } else {
        index
    }
}

/// What a focused toggle submits: its selection on Enter, then a
/// cancellation on Escape.
pub open spec fn toggle_submits(index: usize, pressed: Seq<KeyCode>) -> Seq<Result<usize, Error>> {
    (if pressed.contains(KeyCode::Enter) {
        seq![Ok(index)]
    } else {
        Seq::empty()
    }) + (if pressed.contains(KeyCode::Escape) {
        seq![Err(Error::Cancel)]
    } else {
        Seq::empty()
    })
}

/// React to the keys just pressed when the toggle `id` is focused: update the
/// selection, submit it on Enter (then block the toggle and move the focus on),
/// cancel on Escape (moving the focus on and giving "canceled" as error
/// feedback).
pub fn toggle_controller(
    toggle: &mut Toggle,
    id: Entity,
    focus: &mut FocusParam,
    input: &ButtonInput,
) -> (r: (Vec<Result<usize, Error>>, Option<Feedback>))
    ensures
        final(toggle).message == old(toggle).message,
        final(toggle).options == old(toggle).options,
        final(focus).keyboard_nav == old(focus).keyboard_nav,
        old(focus).focus != Some(id) ==> {
            &&& *final(toggle) == *old(toggle)
            &&& final(focus).entries@ == old(focus).entries@
            &&& final(focus).focus == old(focus).focus
            &&& r.0@.len() == 0
            &&& r.1 is None
        },
        old(focus).focus == Some(id) ==> {
            let p = input.pressed@;
            let entries = if p.contains(KeyCode::Enter) {
                block_entries(old(focus).entries@, Some(id), old(focus).focus)
            } else {
                old(focus).entries@
            };
            let after_enter = if p.contains(KeyCode::Enter) {
                focus_after_move_from(entries, Some(id), old(focus).focus)
            } else {
                old(focus).focus
            };
            &&& final(toggle).index == toggle_index(old(toggle).index, p)
            &&& r.0@ == toggle_submits(final(toggle).index, p)
            &&& final(focus).entries@ == entries
            &&& final(focus).focus == (if p.contains(KeyCode::Escape) {
                focus_after_move_from(entries, Some(id), after_enter)
            } else {
                after_enter
            })
            &&& p.contains(KeyCode::Escape) ==> (r.1 matches Some(f) && f.kind
                == FeedbackKind::Error && f.message@ == "canceled"@)
            &&& !p.contains(KeyCode::Escape) ==> r.1 is None
        },
{
    let mut submits: Vec<Result<usize, Error>> = Vec::new();
    let mut feedback: Option<Feedback> = None;
    if !focus.is_focused(id) {
        return (submits, feedback);
    }
    if input.any_just_pressed(
        &[
            KeyCode::KeyH,
            KeyCode::ArrowLeft,
            KeyCode::KeyL,
            KeyCode::ArrowRight,
            KeyCode::Enter,
            KeyCode::Escape,
        ],
    ) {
        if input.any_just_pressed(&[KeyCode::KeyH, KeyCode::ArrowLeft]) {
            toggle.index = 0;
        }
        if input.any_just_pressed(&[KeyCode::KeyL, KeyCode::ArrowRight]) {
            toggle.index = 1;
        }
        if input.just_pressed(KeyCode::Enter) {
            submits.push(Ok(toggle.index));
            focus.block_and_move(Some(id));
        }
        if input.just_pressed(KeyCode::Escape) {
            submits.push(Err(Error::Cancel));
            focus.move_focus_from(Some(id));
            feedback = Some(Feedback::error("canceled"));
        }
    }
    proof {
        let p = input.pressed@;
        let left_keys = seq![KeyCode::KeyH, KeyCode::ArrowLeft];
        let right_keys = seq![KeyCode::KeyL, KeyCode::ArrowRight];
        let all_keys = seq![
            KeyCode::KeyH,
            KeyCode::ArrowLeft,
            KeyCode::KeyL,
            KeyCode::ArrowRight,
            KeyCode::Enter,
            KeyCode::Escape,
        ];
        assert(forall|i: int| 0 <= i < 2 ==> left_keys.contains(#[trigger] left_keys[i]));
        assert(forall|i: int| 0 <= i < 2 ==> right_keys.contains(#[trigger] right_keys[i]));
        assert(forall|i: int| 0 <= i < 6 ==> all_keys.contains(#[trigger] all_keys[i]));
        assert(left_keys[0] == KeyCode::KeyH && left_keys[1] == KeyCode::ArrowLeft);
        assert(right_keys[0] == KeyCode::KeyL && right_keys[1] == KeyCode::ArrowRight);
        assert(all_keys[0] == KeyCode::KeyH && all_keys[1] == KeyCode::ArrowLeft && all_keys[2]
            == KeyCode::KeyL && all_keys[3] == KeyCode::ArrowRight && all_keys[4] == KeyCode::Enter
            && all_keys[5] == KeyCode::Escape);
        assert(submits@ =~= toggle_submits(toggle.index, p));
    }
    (submits, feedback)
}

/// The selection of a toggle stays one of its two options.
pub proof fn law_toggle_index_in_range(index: usize, pressed: Seq<KeyCode>)
    requires
        index < 2,
    ensures
        toggle_index(index, pressed) < 2,
{
}

/// L or Right select the second option; else H or Left the first; other
/// keys keep the selection. Enter submits the selection first, Escape a
/// cancellation last.
pub proof fn law_toggle_keys(index: usize, pressed: Seq<KeyCode>)
    ensures
        pressed.contains(KeyCode::KeyL) || pressed.contains(KeyCode::ArrowRight) ==> toggle_index(index, pressed)
            == 1,
        !(pressed.contains(KeyCode::KeyL) || pressed.contains(KeyCode::ArrowRight)) && (pressed.contains(
            KeyCode::KeyH,
        ) || pressed.contains(KeyCode::ArrowLeft)) ==> toggle_index(index, pressed) == 0,
        !(pressed.contains(KeyCode::KeyL) || pressed.contains(KeyCode::ArrowRight) || pressed.contains(
            KeyCode::KeyH,
        ) || pressed.contains(KeyCode::ArrowLeft)) ==> toggle_index(index, pressed) == index,
        pressed.contains(KeyCode::Enter) ==> toggle_submits(index, pressed)[0] == Ok::<usize, Error>(index),
        pressed.contains(KeyCode::Escape) ==> toggle_submits(index, pressed).last() == Err::<usize, Error>(
            Error::Cancel,
        ),
        toggle_submits(index, pressed).len() == (if pressed.contains(KeyCode::Enter) { 1int } else { 0 }) + (
        if pressed.contains(KeyCode::Escape) { 1int } else { 0 }),
{
}

} // verus!
