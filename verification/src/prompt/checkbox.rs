//! Checkboxes, and groups of them that submit all their states together.
use crate::focus::Focus;
use crate::keys::{ButtonInput, KeyCode};
use crate::{Entity, Error};
use vstd::prelude::*;

verus! {

/// Checkbox
#[derive(Debug, Clone, Copy, PartialEq, Eq, Structural)]
pub struct Checkbox {
    /// Initial checkbox of the prompt
    pub checked: bool,
}

/// Checkbox Group
///
/// Given to parent of checkbox group that handles submission.
#[derive(Debug, Clone, Copy, PartialEq, Eq, Default)]
pub struct CheckboxGroup;

/// The state after the keys just pressed: Space flips it, then Y checks and N
/// unchecks.
pub open spec fn checkbox_state(checked: bool, pressed: Seq<KeyCode>) -> bool {
    if pressed.contains(KeyCode::KeyN) {
        false
    } else if pressed.contains(KeyCode::KeyY) {
        true
    } else if pressed.contains(KeyCode::Space) {
        !checked
    } else {
        checked
    }
}

/// React to the keys just pressed when the checkbox `id` is focused.
pub fn checkbox_controller(checkbox: &mut Checkbox, id: Entity, focus: &Focus, input: &ButtonInput)
    ensures
        final(checkbox).checked == (if focus.focus == Some(id) {
            checkbox_state(old(checkbox).checked, input.pressed@)
        } else {
            old(checkbox).checked
        }),
{
    proof {
        let keys = seq![KeyCode::Space, KeyCode::KeyY, KeyCode::KeyN];
        assert(forall|i: int| 0 <= i < 3 ==> keys.contains(#[trigger] keys[i]));
        assert(keys[0] == KeyCode::Space && keys[1] == KeyCode::KeyY && keys[2] == KeyCode::KeyN);
    }
    if input.any_just_pressed(&[KeyCode::Space, KeyCode::KeyY, KeyCode::KeyN]) {
        if focus.is_focused(id) {
            if input.just_pressed(KeyCode::Space) {
                checkbox.checked = !checkbox.checked;
            }
            if input.just_pressed(KeyCode::KeyY) {
                checkbox.checked = true;
            }
            if input.just_pressed(KeyCode::KeyN) {
                checkbox.checked = false;
            }
        }
    }
}

/// The states of the checkboxes among `children`, in order; children that are
/// not checkboxes are skipped.
pub open spec fn checked_states(children: Seq<(Entity, Option<Checkbox>)>) -> Seq<bool>
    decreases children.len(),
{
    if children.len() == 0 {
        Seq::empty()
    } else {
        checked_states(children.drop_last()) + match children.last().1 {
            Some(c) => seq![c.checked],
            None => Seq::empty(),
        }
    }
}

/// Some child of the group is focused.
pub open spec fn child_focused(children: Seq<(Entity, Option<Checkbox>)>, focus: Option<Entity>) -> bool {
    exists|i: int| 0 <= i < children.len() && focus == Some(#[trigger] children[i].0)
}

/// A group's submissions, with each answer taken as a sequence.
pub open spec fn group_results(s: Seq<Result<Vec<bool>, Error>>) -> Seq<Result<Seq<bool>, Error>> {
    s.map_values(
        |r: Result<Vec<bool>, Error>|
            match r {
                Ok(v) => Ok(v@),
                Err(e) => Err(e),
            },
    )
}

/// What a checkbox group submits when one of its children is focused: the
/// states of its checkboxes on Enter, then a cancellation on Escape.
pub open spec fn group_submits(states: Seq<bool>, pressed: Seq<KeyCode>) -> Seq<Result<Seq<bool>, Error>> {
    (if pressed.contains(KeyCode::Enter) {
        seq![Ok(states)]
    } else {
        Seq::empty()
    }) + (if pressed.contains(KeyCode::Escape) {
        seq![Err(Error::Cancel)]
    } else {
        Seq::empty()
    })
}

fn collect_checked(children: &[(Entity, Option<Checkbox>)]) -> (r: Vec<bool>)
    ensures
        r@ == checked_states(children@),
{
    let mut r: Vec<bool> = Vec::new();
    let mut i: usize = 0;
    while i < children.len()
        invariant
            i <= children.len(),
            r@ == checked_states(children@.take(i as int)),
        decreases children.len() - i,
    {
        proof {
            assert(children@.take(i + 1).drop_last() =~= children@.take(i as int));
        }
        match children[i].1 {
            Some(c) => r.push(c.checked),
            None => {},
        }
        i = i + 1;
        proof {
            assert(r@ =~= checked_states(children@.take(i as int)));
        }
    }
    proof {
        assert(children@.take(i as int) =~= children@);
    }
    r
}

fn any_child_focused(children: &[(Entity, Option<Checkbox>)], focus: &Focus) -> (r: bool)
    ensures
        r == child_focused(children@, focus.focus),
{
    let mut i: usize = 0;
    while i < children.len()
        invariant
            i <= children.len(),
            forall|j: int| 0 <= j < i ==> focus.focus != Some(#[trigger] children@[j].0),
        decreases children.len() - i,
    {
        if focus.is_focused(children[i].0) {
            return true;
        }
        i = i + 1;
    }
    false
}

/// React to Enter or Escape when a child of the checkbox group is focused:
/// return what the group submits.
pub fn checkbox_group_controller(
    children: &[(Entity, Option<Checkbox>)],
    focus: &Focus,
    input: &ButtonInput,
) -> (submits: Vec<Result<Vec<bool>, Error>>)
    ensures
        group_results(submits@) == (if child_focused(children@, focus.focus) {
            group_submits(checked_states(children@), input.pressed@)
        } else {
            Seq::empty()
        }),
{
    let mut submits: Vec<Result<Vec<bool>, Error>> = Vec::new();
    if !input.any_just_pressed(&[KeyCode::Escape, KeyCode::Enter]) {
        proof {
            let keys = seq![KeyCode::Escape, KeyCode::Enter];
            assert(keys.contains(keys[0]) && keys.contains(keys[1]));
            assert(group_results(submits@) =~= group_submits(checked_states(children@), input.pressed@));
            assert(group_results(submits@) =~= Seq::empty());
        }
        return submits;
    }
    if any_child_focused(children, focus) {
        if input.just_pressed(KeyCode::Enter) {
            submits.push(Ok(collect_checked(children)));
        }
        if input.just_pressed(KeyCode::Escape) {
            submits.push(Err(Error::Cancel));
        }
    }
    proof {
        assert(group_results(submits@) =~= (if child_focused(children@, focus.focus) {
            group_submits(checked_states(children@), input.pressed@)
        } else {
            Seq::empty()
        }));
    }
    submits
}

/// A group reports one state per checkbox child, in order: its states are
/// those of the children that are checkboxes, and the children without a
/// checkbox contribute nothing.
pub proof fn law_states_of_checkbox_children(children: Seq<(Entity, Option<Checkbox>)>)
    ensures
        checked_states(children) == children.filter(|x: (Entity, Option<Checkbox>)| x.1 is Some).map_values(
            |x: (Entity, Option<Checkbox>)| x.1->Some_0.checked,
        ),
    decreases children.len(),
{
    reveal(Seq::filter);
    let pred = |x: (Entity, Option<Checkbox>)| x.1 is Some;
    let f = |x: (Entity, Option<Checkbox>)| x.1->Some_0.checked;
    if children.len() > 0 {
        law_states_of_checkbox_children(children.drop_last());
        let sub = children.drop_last().filter(pred);
        if children.last().1 is Some {
            assert(sub.push(children.last()).map_values(f) =~= sub.map_values(f) + seq![
                children.last().1->Some_0.checked,
            ]);
        } else {
            assert(checked_states(children.drop_last()) + Seq::<bool>::empty() =~= checked_states(
                children.drop_last(),
            ));
        }
    }
}

/// A focused checkbox is unchecked by N, else checked by Y, else flipped by
/// Space, and otherwise keeps its state; pressing Space twice gives it back.
pub proof fn law_checkbox_keys(checked: bool, pressed: Seq<KeyCode>)
    ensures
        pressed.contains(KeyCode::KeyN) ==> !checkbox_state(checked, pressed),
        !pressed.contains(KeyCode::KeyN) && pressed.contains(KeyCode::KeyY) ==> checkbox_state(checked, pressed),
        !pressed.contains(KeyCode::KeyN) && !pressed.contains(KeyCode::KeyY) && pressed.contains(
            KeyCode::Space,
        ) ==> checkbox_state(checked, pressed) == !checked,
        !pressed.contains(KeyCode::KeyN) && !pressed.contains(KeyCode::KeyY) && !pressed.contains(
            KeyCode::Space,
        ) ==> checkbox_state(checked, pressed) == checked,
        checkbox_state(checkbox_state(checked, seq![KeyCode::Space]), seq![KeyCode::Space]) == checked,
{
    assert(seq![KeyCode::Space][0] == KeyCode::Space);
    assert(!seq![KeyCode::Space].contains(KeyCode::KeyN)) by {
        if seq![KeyCode::Space].contains(KeyCode::KeyN) {
            let i = choose|i: int| 0 <= i < 1 && seq![KeyCode::Space][i] == KeyCode::KeyN;
        }
    }
    assert(!seq![KeyCode::Space].contains(KeyCode::KeyY)) by {
        if seq![KeyCode::Space].contains(KeyCode::KeyY) {
            let i = choose|i: int| 0 <= i < 1 && seq![KeyCode::Space][i] == KeyCode::KeyY;
        }
    }
}

/// On Enter a checkbox group submits the states of its checkboxes, and on
/// Escape a cancellation, after any answer.
pub proof fn law_checkbox_group_submits(states: Seq<bool>, pressed: Seq<KeyCode>)
    ensures
        pressed.contains(KeyCode::Enter) ==> group_submits(states, pressed)[0] == Ok::<Seq<bool>, Error>(states),
        pressed.contains(KeyCode::Escape) ==> group_submits(states, pressed).last() == Err::<Seq<bool>, Error>(
            Error::Cancel,
        ),
        group_submits(states, pressed).len() == (if pressed.contains(KeyCode::Enter) { 1int } else { 0 }) + (
        if pressed.contains(KeyCode::Escape) { 1int } else { 0 }),
{
}

} // verus!
