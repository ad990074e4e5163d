//! Keyboard focus by tab index: which prompt gets the focus first, and what
//! the arrow keys ask of tab navigation.
use crate::keys::{ButtonInput, KeyCode};
use crate::Entity;
use vstd::prelude::*;

verus! {

/// A step of tab navigation.
#[derive(Debug, Clone, Copy, PartialEq, Eq, Structural)]
pub enum NavAction {
    /// To the next focusable entity.
    Next,
    /// To the previous focusable entity.
    Previous,
}

/// The entity may hold the focus: it is among the focusables with a
/// non-negative tab index.
pub open spec fn tab_focusable(focusables: Seq<(Entity, i32)>, e: Entity) -> bool {
    exists|i: int| 0 <= i < focusables.len() && (#[trigger] focusables[i]).0 == e && focusables[i].1 >= 0
}

/// The focus is on an entity that may hold it.
pub open spec fn focus_stays(focus: Option<Entity>, focusables: Seq<(Entity, i32)>) -> bool {
    match focus {
        Some(e) => tab_focusable(focusables, e),
        None => false,
    }
}

/// Entry `i` has the least non-negative tab index, and no entry before it has
/// the same.
pub open spec fn first_least_tab(focusables: Seq<(Entity, i32)>, i: int) -> bool {
    &&& 0 <= i < focusables.len()
    &&& focusables[i].1 >= 0
    &&& forall|j: int|
        0 <= j < focusables.len() && (#[trigger] focusables[j]).1 >= 0 ==> focusables[i].1
            <= focusables[j].1
    &&& forall|j: int| 0 <= j < i && (#[trigger] focusables[j]).1 >= 0 ==> focusables[i].1 < focusables[j].1
}

/// Where the focus should go when it is not on a focusable entity: to the
/// first entity with the least non-negative tab index. Returns `None` when
/// the focus is already on one, or when there is none.
pub fn initialize_focus(focus: Option<Entity>, focusables: &[(Entity, i32)]) -> (r: Option<Entity>)
    ensures
        focus_stays(focus, focusables@) ==> r is None,
        !focus_stays(focus, focusables@) ==> match r {
            Some(x) => exists|i: int| first_least_tab(focusables@, i) && (#[trigger] focusables@[i]).0 == x,
            None => forall|j: int| 0 <= j < focusables@.len() ==> (#[trigger] focusables@[j]).1 < 0,
        },
{
    if let Some(e) = focus {
        let mut i: usize = 0;
        while i < focusables.len()
            invariant
                focus == Some(e),
                i <= focusables@.len(),
                forall|j: int|
                    0 <= j < i ==> !((#[trigger] focusables@[j]).0 == e && focusables@[j].1 >= 0),
            decreases focusables@.len() - i,
        {
            if focusables[i].0 == e && focusables[i].1 >= 0 {
                assert(tab_focusable(focusables@, e));
                return None;
            }
            i = i + 1;
        }
    }
    let mut best: Option<usize> = None;
    let mut i: usize = 0;
    while i < focusables.len()
        invariant
            i <= focusables@.len(),
            match best {
                Some(b) => first_least_tab(focusables@.take(i as int), b as int),
                None => forall|j: int| 0 <= j < i ==> (#[trigger] focusables@[j]).1 < 0,
            },
        decreases focusables@.len() - i,
    {
        let t = focusables[i].1;
        if t >= 0 {
            match best {
                Some(b) => {
                    if t < focusables[b].1 {
                        best = Some(i);
                    }
                },
                None => {
                    best = Some(i);
                },
            }
        }
        proof {
            let s = focusables@.take(i + 1);
            assert(forall|j: int| 0 <= j < i + 1 ==> s[j] == focusables@[j]);
            assert(forall|j: int| 0 <= j < i ==> focusables@.take(i as int)[j] == focusables@[j]);
        }
        i = i + 1;
    }
    proof {
        assert(focusables@.take(i as int) =~= focusables@);
    }
    match best {
        Some(b) => Some(focusables[b].0),
        None => None,
    }
}

/// What the arrow keys ask of tab navigation: Down or Right the next entity,
/// else Up or Left the previous one.
pub open spec fn arrow_action(pressed: Seq<KeyCode>) -> Option<NavAction> {
    if pressed.contains(KeyCode::ArrowDown) || pressed.contains(KeyCode::ArrowRight) {
        Some(NavAction::Next)
    } else if pressed.contains(KeyCode::ArrowUp) || pressed.contains(KeyCode::ArrowLeft) {
        Some(NavAction::Previous)
    } else {
        None
    }
}

/// The tab navigation the arrow keys ask for; none while a text input has
/// the focus, since there the arrows move the text cursor.
pub fn arrow_key_navigation(input: &ButtonInput, focus_on_text: bool) -> (r: Option<NavAction>)
    ensures
        r == (if focus_on_text {
            None
        } else {
            arrow_action(input.pressed@)
        }),
{
    let action = if input.just_pressed(KeyCode::ArrowDown) || input.just_pressed(KeyCode::ArrowRight) {
        NavAction::Next
    } else if input.just_pressed(KeyCode::ArrowUp) || input.just_pressed(KeyCode::ArrowLeft) {
        NavAction::Previous
    } else {
        return None;
    };
    if focus_on_text {
        return None;
    }
    Some(action)
}

/// The parents, in order, that are not yet tab groups.
pub open spec fn missing_groups(parents: Seq<(Entity, bool)>) -> Seq<Entity>
    decreases parents.len(),
{
    if parents.len() == 0 {
        Seq::empty()
    } else {
        missing_groups(parents.drop_last()) + if parents.last().1 {
            Seq::empty()
        } else {
            seq![parents.last().0]
        }
    }
}

/// Every parent of a newly focusable entity must be a tab group: given each
/// such parent and whether it is one, returns those that need to become one.
pub fn ensure_tab_groups(parents: &[(Entity, bool)]) -> (r: Vec<Entity>)
    ensures
        r@ == missing_groups(parents@),
{
    let mut r: Vec<Entity> = Vec::new();
    let mut i: usize = 0;
    while i < parents.len()
        invariant
            i <= parents@.len(),
            r@ == missing_groups(parents@.take(i as int)),
        decreases parents@.len() - i,
    {
        proof {
            assert(parents@.take(i + 1).drop_last() =~= parents@.take(i as int));
        }
        if !parents[i].1 {
            r.push(parents[i].0);
        }
        proof {
            assert(r@ =~= missing_groups(parents@.take(i + 1)));
        }
        i = i + 1;
    }
    proof {
        assert(parents@.take(i as int) =~= parents@);
    }
    r
}

/// ArrowDown or ArrowRight asks for the next entity; ArrowUp or ArrowLeft,
/// without either of those, for the previous one; no arrow key for nothing.
pub proof fn law_arrow_actions(pressed: Seq<KeyCode>)
    ensures
        pressed.contains(KeyCode::ArrowDown) || pressed.contains(KeyCode::ArrowRight) ==> arrow_action(
            pressed,
        ) == Some(NavAction::Next),
        (pressed.contains(KeyCode::ArrowUp) || pressed.contains(KeyCode::ArrowLeft)) && !pressed.contains(
            KeyCode::ArrowDown,
        ) && !pressed.contains(KeyCode::ArrowRight) ==> arrow_action(pressed) == Some(NavAction::Previous),
        !pressed.contains(KeyCode::ArrowUp) && !pressed.contains(KeyCode::ArrowDown) && !pressed.contains(
            KeyCode::ArrowLeft,
        ) && !pressed.contains(KeyCode::ArrowRight) ==> arrow_action(pressed) is None,
{
}

/// The parents that need to become tab groups are exactly those that are not
/// one yet, in order.
pub proof fn law_missing_groups(parents: Seq<(Entity, bool)>)
    ensures
        missing_groups(parents) == parents.filter(|p: (Entity, bool)| !p.1).map_values(|p: (Entity, bool)| p.0),
    decreases parents.len(),
{
    reveal(Seq::filter);
    let pred = |p: (Entity, bool)| !p.1;
    let f = |p: (Entity, bool)| p.0;
    if parents.len() > 0 {
        law_missing_groups(parents.drop_last());
        let sub = parents.drop_last().filter(pred);
        if !parents.last().1 {
            assert(sub.push(parents.last()).map_values(f) =~= sub.map_values(f) + seq![parents.last().0]);
        } else {
            assert(missing_groups(parents.drop_last()) + Seq::<Entity>::empty() =~= missing_groups(
                parents.drop_last(),
            ));
        }
    }
}

} // verus!
