//! A yes-or-no question.
use crate::focus::Focus;
use crate::keys::{ButtonInput, KeyCode};
use crate::prompt::OptionPrompt;
use crate::{Entity, Error};
use vstd::prelude::*;

verus! {

/// Confirm query
#[derive(Debug, Clone, Copy, PartialEq, Eq, Structural)]
pub struct Confirm {
    /// Yes or no
    pub yes: bool,
}

impl OptionPrompt for Confirm {
    open spec fn option_name(&self, index: int) -> Seq<char> {
        if index == 0 {
            "No"@
        } else {
            "Yes"@
        }
    }

    open spec fn selected(&self) -> usize {
        if self.yes {
            1
        } else {
            0
        }
    }

    fn name(&self, index: usize) -> (r: &str) {
        if index == 0 {
            "No"
        } else {
            "Yes"
        }
    }

    fn state(&self) -> (r: usize) {
        if self.yes {
            1
        } else {
            0
        }
    }
}

/// The answer after the keys just pressed: Y, L or Right select yes; then
/// N, H or Left select no.
pub open spec fn confirm_answer(yes: bool, pressed: Seq<KeyCode>) -> bool {
    if pressed.contains(KeyCode::KeyN) || pressed.contains(KeyCode::KeyH) || pressed.contains(
        KeyCode::ArrowLeft,
    ) {
        false
    } else if pressed.contains(KeyCode::KeyY) || pressed.contains(KeyCode::KeyL)
        || pressed.contains(KeyCode::ArrowRight) {
        true
    } else {
        yes
    }
}

/// What a focused confirmation submits: its answer on Enter, then a
/// cancellation on Escape.
pub open spec fn confirm_submits(answer: bool, pressed: Seq<KeyCode>) -> Seq<Result<bool, Error>> {
    (if pressed.contains(KeyCode::Enter) {
        seq![Ok(answer)]
    } else {
        Seq::empty()
    }) + (if pressed.contains(KeyCode::Escape) {
        seq![Err(Error::Cancel)]
    } else {
        Seq::empty()
    })
}

/// React to the keys just pressed when the confirmation `id` is focused:
/// update the answer and return what it submits.
pub fn confirm_controller(confirm: &mut Confirm, id: Entity, focus: &Focus, input: &ButtonInput) -> (submits: Vec<Result<bool, Error>>)
    ensures
        focus.focus != Some(id) ==> *final(confirm) == *old(confirm) && submits@.len() == 0,
        focus.focus == Some(id) ==> {
            &&& final(confirm).yes == confirm_answer(old(confirm).yes, input.pressed@)
            &&& submits@ == confirm_submits(final(confirm).yes, input.pressed@)
        },
{
    let mut submits: Vec<Result<bool, Error>> = Vec::new();
    if !focus.is_focused(id) {
        return submits;
    }
    if input.any_just_pressed(
        &[
            KeyCode::KeyY,
            KeyCode::ArrowRight,
            KeyCode::ArrowLeft,
            KeyCode::KeyH,
            KeyCode::KeyL,
            KeyCode::KeyN,
            KeyCode::Enter,
            KeyCode::Escape,
        ],
    ) {
        if input.any_just_pressed(&[KeyCode::KeyY, KeyCode::KeyL, KeyCode::ArrowRight]) {
            confirm.yes = true;
        }
        if input.any_just_pressed(&[KeyCode::KeyN, KeyCode::KeyH, KeyCode::ArrowLeft]) {
            confirm.yes = false;
        }
        if input.just_pressed(KeyCode::Enter) {
            submits.push(Ok(confirm.yes));
        }
        if input.just_pressed(KeyCode::Escape) {
            submits.push(Err(Error::Cancel));
        }
    }
    proof {
        let p = input.pressed@;
        let yes_keys = seq![KeyCode::KeyY, KeyCode::KeyL, KeyCode::ArrowRight];
        let no_keys = seq![KeyCode::KeyN, KeyCode::KeyH, KeyCode::ArrowLeft];
        let all_keys = seq![
            KeyCode::KeyY,
            KeyCode::ArrowRight,
            KeyCode::ArrowLeft,
            KeyCode::KeyH,
            KeyCode::KeyL,
            KeyCode::KeyN,
            KeyCode::Enter,
            KeyCode::Escape,
        ];
        assert(forall|i: int| 0 <= i < 8 ==> all_keys.contains(#[trigger] all_keys[i]));
        assert(all_keys[0] == KeyCode::KeyY && all_keys[1] == KeyCode::ArrowRight && all_keys[2]
            == KeyCode::ArrowLeft && all_keys[3] == KeyCode::KeyH && all_keys[4] == KeyCode::KeyL
            && all_keys[5] == KeyCode::KeyN && all_keys[6] == KeyCode::Enter && all_keys[7]
            == KeyCode::Escape);
        assert(yes_keys.contains(yes_keys[0]) && yes_keys.contains(yes_keys[1]) && yes_keys.contains(yes_keys[2]));
        assert(no_keys.contains(no_keys[0]) && no_keys.contains(no_keys[1]) && no_keys.contains(no_keys[2]));
        assert(submits@ =~= confirm_submits(confirm.yes, p));
    }
    submits
}

/// N, H or Left answer no; else Y, L or Right answer yes; other keys keep
/// the answer. Enter submits the answer first, Escape a cancellation last.
pub proof fn law_confirm_keys(yes: bool, pressed: Seq<KeyCode>)
    ensures
        pressed.contains(KeyCode::KeyN) || pressed.contains(KeyCode::KeyH) || pressed.contains(KeyCode::ArrowLeft)
            ==> !confirm_answer(yes, pressed),
        !(pressed.contains(KeyCode::KeyN) || pressed.contains(KeyCode::KeyH) || pressed.contains(
            KeyCode::ArrowLeft,
        )) && (pressed.contains(KeyCode::KeyY) || pressed.contains(KeyCode::KeyL) || pressed.contains(
            KeyCode::ArrowRight,
        )) ==> confirm_answer(yes, pressed),
        !(pressed.contains(KeyCode::KeyN) || pressed.contains(KeyCode::KeyH) || pressed.contains(
            KeyCode::ArrowLeft,
        ) || pressed.contains(KeyCode::KeyY) || pressed.contains(KeyCode::KeyL) || pressed.contains(
            KeyCode::ArrowRight,
        )) ==> confirm_answer(yes, pressed) == yes,
        pressed.contains(KeyCode::Enter) ==> confirm_submits(yes, pressed)[0] == Ok::<bool, Error>(yes),
        pressed.contains(KeyCode::Escape) ==> confirm_submits(yes, pressed).last() == Err::<bool, Error>(
            Error::Cancel,
        ),
        confirm_submits(yes, pressed).len() == (if pressed.contains(KeyCode::Enter) { 1int } else { 0 }) + (
        if pressed.contains(KeyCode::Escape) { 1int } else { 0 }),
{
}

} // verus!
