//! Radio buttons: in a group of siblings, checking one unchecks the others.
use crate::focus::Focus;
use crate::keys::{ButtonInput, KeyCode};
use crate::prompt::{Feedback, FeedbackKind};
use crate::{Entity, Error};
use vstd::prelude::*;

verus! {

/// Radio element
///
/// Only one may be selected in a group of elements
#[derive(Debug, Clone, Copy, PartialEq, Eq, Structural)]
pub struct Radio {
    /// Initial radio of the prompt
    pub checked: bool,
}

/// Parent of entities with [Radio] component
#[derive(Debug, Clone, Copy, PartialEq, Eq, Default)]
pub struct RadioGroup;

/// A radio button with its entity and the entity of its group, if any.
#[derive(Debug, Clone, Copy, PartialEq, Eq, Structural)]
pub struct RadioEntry {
    /// The radio's entity.
    pub id: Entity,
    /// The radio itself.
    pub radio: Radio,
    /// The parent whose radio children form the radio's group.
    pub parent: Option<Entity>,
}

/// The state of a focused radio after the keys just pressed: Space flips it,
/// then L checks and H unchecks.
pub open spec fn radio_state(checked: bool, pressed: Seq<KeyCode>) -> bool {
    if pressed.contains(KeyCode::KeyH) {
        false
    } else if pressed.contains(KeyCode::KeyL) {
        true
    } else if pressed.contains(KeyCode::Space) {
        !checked
    } else {
        checked
    }
}

/// Space, H or L was just pressed.
pub open spec fn radio_keys(pressed: Seq<KeyCode>) -> bool {
    pressed.contains(KeyCode::Space) || pressed.contains(KeyCode::KeyH) || pressed.contains(
        KeyCode::KeyL,
    )
}

/// The state of radio `i` once the keys were applied to the focused radio.
pub open spec fn stepped(s: Seq<RadioEntry>, focus: Option<Entity>, pressed: Seq<KeyCode>, i: int) -> bool {
    if radio_keys(pressed) && focus == Some(s[i].id) {
        radio_state(s[i].radio.checked, pressed)
    } else {
        s[i].radio.checked
    }
}

/// Radio `i` was just checked by the keys, and it belongs to a group.
pub open spec fn toggled(s: Seq<RadioEntry>, focus: Option<Entity>, pressed: Seq<KeyCode>, i: int) -> bool {
    &&& 0 <= i < s.len()
    &&& radio_keys(pressed)
    &&& focus == Some(s[i].id)
    &&& stepped(s, focus, pressed, i)
    &&& !s[i].radio.checked
    &&& s[i].parent is Some
}

/// Radio `i` is unchecked because another radio of its group was just checked.
pub open spec fn displaced(s: Seq<RadioEntry>, focus: Option<Entity>, pressed: Seq<KeyCode>, i: int) -> bool {
    exists|t: int|
        #![trigger toggled(s, focus, pressed, t)]
        toggled(s, focus, pressed, t) && s[t].parent == s[i].parent && s[i].id != s[t].id
}

/// The radios after the keys just pressed: the focused radio takes the keys,
/// and when that checks it, the other radios of its group are unchecked.
pub open spec fn radios_after(s: Seq<RadioEntry>, focus: Option<Entity>, pressed: Seq<KeyCode>) -> Seq<RadioEntry> {
    Seq::new(
        s.len(),
        |i: int|
            RadioEntry {
                radio: Radio {
                    checked: if displaced(s, focus, pressed, i) {
                        false
                    } else {
                        stepped(s, focus, pressed, i)
                    },
                },
                ..s[i]
            },
    )
}

/// The groups of the radios among the first `n` that were just checked, in order.
pub open spec fn toggled_groups(s: Seq<RadioEntry>, focus: Option<Entity>, pressed: Seq<KeyCode>, n: int) -> Seq<Entity>
    decreases n,
{
    if n <= 0 {
        Seq::empty()
    } else {
        toggled_groups(s, focus, pressed, n - 1) + if toggled(s, focus, pressed, n - 1) {
            seq![s[n - 1].parent->0]
        } else {
            Seq::empty()
        }
    }
}

proof fn lemma_toggled_groups(s: Seq<RadioEntry>, focus: Option<Entity>, pressed: Seq<KeyCode>, n: int)
    requires
        0 <= n <= s.len(),
    ensures
        forall|g: Entity|
            #[trigger] toggled_groups(s, focus, pressed, n).contains(g) <==> exists|t: int|
                #![trigger toggled(s, focus, pressed, t)]
                0 <= t < n && toggled(s, focus, pressed, t) && s[t].parent == Some(g),
    decreases n,
{
    if n > 0 {
        lemma_toggled_groups(s, focus, pressed, n - 1);
        let prev = toggled_groups(s, focus, pressed, n - 1);
        let cur = toggled_groups(s, focus, pressed, n);
        assert forall|g: Entity| #[trigger] cur.contains(g) <==> exists|t: int|
            #![trigger toggled(s, focus, pressed, t)]
            0 <= t < n && toggled(s, focus, pressed, t) && s[t].parent == Some(g) by {
            if toggled(s, focus, pressed, n - 1) {
                let last = seq![s[n - 1].parent->0];
                assert(cur == prev + last);
                if cur.contains(g) {
                    let k = choose|k: int| 0 <= k < cur.len() && cur[k] == g;
                    if k < prev.len() {
                        assert(prev[k] == g);
                        assert(prev.contains(g));
                    }
                }
                if prev.contains(g) {
                    let k = choose|k: int| 0 <= k < prev.len() && prev[k] == g;
                    assert(cur[k] == g);
                }
                if s[n - 1].parent == Some(g) {
                    assert(cur[prev.len() as int] == g);
                }
            } else {
                assert(cur =~= prev);
            }
        }
    }
}

fn contains_entity(v: &Vec<Entity>, x: Entity) -> (r: bool)
    ensures
        r == v@.contains(x),
{
    let mut i: usize = 0;
    while i < v.len()
        invariant
            i <= v.len(),
            forall|j: int| 0 <= j < i ==> v@[j] != x,
        decreases v.len() - i,
    {
        if v[i] == x {
            assert(v@[i as int] == x);
            return true;
        }
        i = i + 1;
    }
    false
}

/// The focused radio takes the keys; returns the groups of the radios the
/// keys just checked.
fn step_focused_radios(radios: &mut Vec<RadioEntry>, focus: &Focus, input: &ButtonInput) -> (groups: Vec<Entity>)
    requires
        radio_keys(input.pressed@),
    ensures
        final(radios)@.len() == old(radios)@.len(),
        forall|j: int|
            0 <= j < old(radios)@.len() ==> (#[trigger] final(radios)@[j]).id == old(radios)@[j].id
                && final(radios)@[j].parent == old(radios)@[j].parent
                && final(radios)@[j].radio.checked == stepped(old(radios)@, focus.focus, input.pressed@, j),
        groups@ == toggled_groups(old(radios)@, focus.focus, input.pressed@, old(radios)@.len() as int),
{
    let ghost s = radios@;
    let ghost p = input.pressed@;
    let mut groups: Vec<Entity> = Vec::new();
    let mut i: usize = 0;
    while i < radios.len()
        invariant
            radios@.len() == s.len(),
            0 <= i <= s.len(),
            radio_keys(p),
            p == input.pressed@,
            forall|j: int|
                0 <= j < i ==> (#[trigger] radios@[j]).id == s[j].id && radios@[j].parent
                    == s[j].parent && radios@[j].radio.checked == stepped(s, focus.focus, p, j),
            forall|j: int| i <= j < s.len() ==> #[trigger] radios@[j] == s[j],
            groups@ == toggled_groups(s, focus.focus, p, i as int),
        decreases s.len() - i,
    {
        let e = radios[i];
        let ghost before = groups@;
        if focus.is_focused(e.id) {
            let was_checked = e.radio.checked;
            let mut checked = e.radio.checked;
            if input.just_pressed(KeyCode::Space) {
                checked = !checked;
            }
            if input.just_pressed(KeyCode::KeyL) {
                checked = true;
            }
            if input.just_pressed(KeyCode::KeyH) {
                checked = false;
            }
            radios.set(i, RadioEntry { radio: Radio { checked }, ..e });
            if checked && !was_checked {
                if let Some(parent) = e.parent {
                    groups.push(parent);
                }
            }
        }
        proof {
            assert(toggled_groups(s, focus.focus, p, i + 1) == toggled_groups(s, focus.focus, p, i as int)
                + if toggled(s, focus.focus, p, i as int) {
                seq![s[i as int].parent->0]
            } else {
                Seq::empty()
            });
            if !toggled(s, focus.focus, p, i as int) {
                assert(groups@ =~= before + Seq::<Entity>::empty());
            }
        }
        i = i + 1;
    }
    groups
}

/// React to the keys just pressed: the focused radio changes, and checking it
/// unchecks the rest of its group.
pub fn radio_controller(radios: &mut Vec<RadioEntry>, focus: &Focus, input: &ButtonInput)
    ensures
        final(radios)@ == radios_after(old(radios)@, focus.focus, input.pressed@),
{
    let ghost s = radios@;
    let ghost p = input.pressed@;
    proof {
        let keys = seq![KeyCode::Space, KeyCode::KeyH, KeyCode::KeyL];
        assert(forall|i: int| 0 <= i < 3 ==> keys.contains(#[trigger] keys[i]));
        assert(keys[0] == KeyCode::Space && keys[1] == KeyCode::KeyH && keys[2] == KeyCode::KeyL);
    }
    if !input.any_just_pressed(&[KeyCode::Space, KeyCode::KeyH, KeyCode::KeyL]) {
        proof {
            assert(radios@ =~= radios_after(s, focus.focus, p));
        }
        return;
    }
    let groups = step_focused_radios(radios, focus, input);
    proof {
        lemma_toggled_groups(s, focus.focus, p, s.len() as int);
    }
    // Each radio just checked unchecks the other radios of its group.
    let mut j: usize = 0;
    while j < radios.len()
        invariant
            radios@.len() == s.len(),
            0 <= j <= s.len(),
            p == input.pressed@,
            groups@ == toggled_groups(s, focus.focus, p, s.len() as int),
            forall|g: Entity|
                #[trigger] groups@.contains(g) <==> exists|t: int|
                    #![trigger toggled(s, focus.focus, p, t)]
                    0 <= t < s.len() && toggled(s, focus.focus, p, t) && s[t].parent == Some(g),
            forall|q: int| 0 <= q < j ==> #[trigger] radios@[q] == radios_after(s, focus.focus, p)[q],
            forall|q: int|
                j <= q < s.len() ==> (#[trigger] radios@[q]).id == s[q].id && radios@[q].parent
                    == s[q].parent && radios@[q].radio.checked == stepped(s, focus.focus, p, q),
        decreases s.len() - j,
    {
        let e = radios[j];
        let mut in_group = false;
        if let Some(g) = e.parent {
            in_group = contains_entity(&groups, g);
        }
        let focused = focus.is_focused(e.id);
        if in_group && !focused {
            radios.set(j, RadioEntry { radio: Radio { checked: false }, ..e });
        }
        proof {
            let q = j as int;
            if displaced(s, focus.focus, p, q) {
                let t = choose|t: int|
                    #![trigger toggled(s, focus.focus, p, t)]
                    toggled(s, focus.focus, p, t) && s[t].parent == s[q].parent && s[q].id != s[t].id;
                assert(groups@.contains(s[t].parent->0));
            }
            if in_group && !focused {
                let t = choose|t: int|
                    #![trigger toggled(s, focus.focus, p, t)]
                    0 <= t < s.len() && toggled(s, focus.focus, p, t) && s[t].parent == e.parent;
                assert(displaced(s, focus.focus, p, q));
            }
            assert(radios@[q] == radios_after(s, focus.focus, p)[q]);
        }
        j = j + 1;
    }
    proof {
        assert(radios@ =~= radios_after(s, focus.focus, p));
    }
}

/// No two distinct radios of one group are both checked.
pub open spec fn at_most_one_per_group(s: Seq<RadioEntry>) -> bool {
    forall|i: int, j: int|
        0 <= i < s.len() && 0 <= j < s.len() && i != j && s[i].parent is Some && s[i].parent
            == s[j].parent && #[trigger] s[i].radio.checked ==> !#[trigger] s[j].radio.checked
}

/// No two radios share an entity.
pub open spec fn radio_ids_distinct(s: Seq<RadioEntry>) -> bool {
    forall|i: int, j: int| 0 <= i < s.len() && 0 <= j < s.len() && i != j ==> s[i].id != s[j].id
}

/// Only one radio may be selected in a group: key presses keep it so.
pub proof fn law_one_selected_per_group(s: Seq<RadioEntry>, focus: Option<Entity>, pressed: Seq<KeyCode>)
    requires
        radio_ids_distinct(s),
        at_most_one_per_group(s),
    ensures
        at_most_one_per_group(radios_after(s, focus, pressed)),
{
    let a = radios_after(s, focus, pressed);
    assert forall|i: int, j: int|
        0 <= i < a.len() && 0 <= j < a.len() && i != j && a[i].parent is Some && a[i].parent
            == a[j].parent && #[trigger] a[i].radio.checked implies !#[trigger] a[j].radio.checked by {
        if a[j].radio.checked {
            assert(!displaced(s, focus, pressed, i));
            assert(!displaced(s, focus, pressed, j));
            assert(stepped(s, focus, pressed, i));
            assert(stepped(s, focus, pressed, j));
            // A radio that is checked now and was not must have been just checked
            // by the keys, and then it displaces the other one.
            if !s[i].radio.checked {
                assert(toggled(s, focus, pressed, i));
                assert(s[j].id != s[i].id);
                assert(displaced(s, focus, pressed, j));
            }
            if !s[j].radio.checked {
                assert(toggled(s, focus, pressed, j));
                assert(s[i].id != s[j].id);
                assert(displaced(s, focus, pressed, i));
            }
            assert(s[i].radio.checked && s[j].radio.checked);
        }
    }
}

/// What the keys do to the radios: the focused radio takes them (Space
/// flips it, then L checks and H unchecks); when that checks it, every other
/// radio of its group is unchecked; radios that are not focused and share no
/// group with the focused one stay as they were.
pub proof fn law_radio_step(s: Seq<RadioEntry>, focus: Option<Entity>, pressed: Seq<KeyCode>)
    requires
        radio_ids_distinct(s),
    ensures
        radios_after(s, focus, pressed).len() == s.len(),
        forall|i: int|
            0 <= i < s.len() ==> (#[trigger] radios_after(s, focus, pressed)[i]).id == s[i].id
                && radios_after(s, focus, pressed)[i].parent == s[i].parent,
        forall|i: int|
            0 <= i < s.len() && focus == Some(s[i].id) ==> (#[trigger] radios_after(
                s,
                focus,
                pressed,
            )[i]).radio.checked == if radio_keys(pressed) {
                radio_state(s[i].radio.checked, pressed)
            } else {
                s[i].radio.checked
            },
        forall|i: int, j: int|
            0 <= i < s.len() && 0 <= j < s.len() && j != i && #[trigger] toggled(s, focus, pressed, i)
                && s[j].parent == s[i].parent ==> !(#[trigger] radios_after(s, focus, pressed)[j]).radio.checked,
        forall|j: int|
            0 <= j < s.len() && focus != Some(s[j].id) && (forall|i: int|
                0 <= i < s.len() && focus == Some(#[trigger] s[i].id) ==> s[i].parent != s[j].parent)
                ==> #[trigger] radios_after(s, focus, pressed)[j] == s[j],
{
    let a = radios_after(s, focus, pressed);
    assert forall|i: int| 0 <= i < s.len() && focus == Some(s[i].id) implies !displaced(s, focus, pressed, i) by {
        if displaced(s, focus, pressed, i) {
            let t = choose|t: int| #![trigger toggled(s, focus, pressed, t)]
                toggled(s, focus, pressed, t) && s[t].parent == s[i].parent && s[i].id != s[t].id;
        }
    }
    assert forall|i: int, j: int|
        0 <= i < s.len() && 0 <= j < s.len() && j != i && #[trigger] toggled(s, focus, pressed, i)
            && s[j].parent == s[i].parent implies !(#[trigger] a[j]).radio.checked by {
        assert(s[j].id != s[i].id);
        assert(displaced(s, focus, pressed, j));
    }
    assert forall|j: int|
        0 <= j < s.len() && focus != Some(s[j].id) && (forall|i: int|
            0 <= i < s.len() && focus == Some(#[trigger] s[i].id) ==> s[i].parent != s[j].parent)
            implies #[trigger] a[j] == s[j] by {
        if displaced(s, focus, pressed, j) {
            let t = choose|t: int| #![trigger toggled(s, focus, pressed, t)]
                toggled(s, focus, pressed, t) && s[t].parent == s[j].parent && s[j].id != s[t].id;
            assert(focus == Some(s[t].id));
        }
    }
}

/// The checked states of the radios among a group's children, in order;
/// children that are not radios are skipped.
pub open spec fn radio_states(children: Seq<(Entity, Option<Radio>)>) -> Seq<bool>
    decreases children.len(),
{
    if children.len() == 0 {
        Seq::empty()
    } else {
        radio_states(children.drop_last()) + match children.last().1 {
            Some(r) => seq![r.checked],
            None => Seq::empty(),
        }
    }
}

/// Some radio child of the group is focused.
pub open spec fn radio_child_focused(children: Seq<(Entity, Option<Radio>)>, focus: Option<Entity>) -> bool {
    exists|i: int|
        0 <= i < children.len() && children[i].1 is Some && focus == Some(#[trigger] children[i].0)
}

/// The position of the first checked radio, counting radios only.
pub open spec fn first_checked(states: Seq<bool>) -> Option<int> {
    if exists|i: int| 0 <= i < states.len() && states[i] {
        Some(choose|i: int| 0 <= i < states.len() && states[i] && forall|j: int| 0 <= j < i ==> !states[j])
    } else {
        None
    }
}

proof fn lemma_first_checked(states: Seq<bool>, i: int)
    requires
        0 <= i < states.len(),
        states[i],
        forall|j: int| 0 <= j < i ==> !states[j],
    ensures
        first_checked(states) == Some(i),
{
    let c = choose|c: int| 0 <= c < states.len() && states[c] && forall|j: int| 0 <= j < c ==> !states[j];
    if c < i {
    } else if i < c {
    }
}

/// What a radio group submits when one of its radios is focused: on Enter,
/// the position of its checked radio; on Escape, a cancellation.
pub open spec fn radio_group_submits(states: Seq<bool>, pressed: Seq<KeyCode>) -> Seq<Result<usize, Error>> {
    (if pressed.contains(KeyCode::Enter) && first_checked(states) is Some {
        seq![Ok(first_checked(states)->0 as usize)]
    } else {
        Seq::empty()
    }) + (if pressed.contains(KeyCode::Escape) {
        seq![Err(Error::Cancel)]
    } else {
        Seq::empty()
    })
}

fn find_focused_radio(children: &[(Entity, Option<Radio>)], focus: &Focus) -> (r: bool)
    ensures
        r == radio_child_focused(children@, focus.focus),
{
    let mut i: usize = 0;
    while i < children.len()
        invariant
            i <= children.len(),
            forall|j: int|
                0 <= j < i ==> !(children@[j].1 is Some && focus.focus == Some(#[trigger] children@[j].0)),
        decreases children.len() - i,
    {
        if children[i].1.is_some() && focus.is_focused(children[i].0) {
            return true;
        }
        i = i + 1;
    }
    false
}

fn selected_position(children: &[(Entity, Option<Radio>)]) -> (r: Option<usize>)
    ensures
        r matches Some(i) ==> first_checked(radio_states(children@)) == Some(i as int),
        r is None ==> first_checked(radio_states(children@)) is None,
{
    let mut count: usize = 0;
    let mut i: usize = 0;
    while i < children.len()
        invariant
            i <= children.len(),
            count == radio_states(children@.take(i as int)).len(),
            count <= i,
            forall|j: int| 0 <= j < count ==> !radio_states(children@.take(i as int))[j],
        decreases children.len() - i,
    {
        proof {
            assert(children@.take(i + 1).drop_last() =~= children@.take(i as int));
            lemma_radio_states_prefix(children@, i as int + 1);
        }
        if let Some(r) = children[i].1 {
            if r.checked {
                proof {
                    let st = radio_states(children@.take(i + 1));
                    lemma_radio_states_prefix(children@, children@.len() as int);
                    assert(children@.take(children@.len() as int) =~= children@);
                    lemma_radio_states_extends(children@, i + 1);
                    lemma_first_checked(radio_states(children@), count as int);
                }
                return Some(count);
            }
            count = count + 1;
        }
        i = i + 1;
    }
    proof {
        assert(children@.take(i as int) =~= children@);
        if exists|j: int| 0 <= j < radio_states(children@).len() && radio_states(children@)[j] {
            assert(false);
        }
    }
    None
}

proof fn lemma_radio_states_prefix(children: Seq<(Entity, Option<Radio>)>, n: int)
    requires
        0 < n <= children.len(),
    ensures
        radio_states(children.take(n)) == radio_states(children.take(n - 1)) + match children[n
            - 1].1 {
            Some(r) => seq![r.checked],
            None => Seq::empty(),
        },
{
    assert(children.take(n).drop_last() =~= children.take(n - 1));
}

/// The states of a prefix of the children are a prefix of the states of all.
proof fn lemma_radio_states_extends(children: Seq<(Entity, Option<Radio>)>, n: int)
    requires
        0 <= n <= children.len(),
    ensures
        radio_states(children.take(n)).len() <= radio_states(children).len(),
        forall|j: int|
            0 <= j < radio_states(children.take(n)).len() ==> radio_states(children)[j]
                == radio_states(children.take(n))[j],
    decreases children.len() - n,
{
    if n < children.len() {
        lemma_radio_states_extends(children, n + 1);
        lemma_radio_states_prefix(children, n + 1);
    } else {
        assert(children.take(n) =~= children);
    }
}

/// React to Enter or Escape when a radio of the group is focused: on Enter,
/// submit the position of the checked radio, or warn "must select one" when
/// none is checked; on Escape, cancel with "canceled" as error feedback.
pub fn radio_group_controller(
    children: &[(Entity, Option<Radio>)],
    focus: &Focus,
    input: &ButtonInput,
) -> (r: (Vec<Result<usize, Error>>, Option<Feedback>))
    ensures
        !radio_child_focused(children@, focus.focus) ==> r.0@.len() == 0 && r.1 is None,
        radio_child_focused(children@, focus.focus) ==> {
            let p = input.pressed@;
            let states = radio_states(children@);
            &&& r.0@ == radio_group_submits(states, p)
            &&& p.contains(KeyCode::Escape) ==> (r.1 matches Some(f) && f.kind
                == FeedbackKind::Error && f.message@ == "canceled"@)
            &&& (!p.contains(KeyCode::Escape) && p.contains(KeyCode::Enter) && first_checked(
                states,
            ) is None) ==> (r.1 matches Some(f) && f.kind == FeedbackKind::Warn && f.message@
                == "must select one"@)
            &&& (!p.contains(KeyCode::Escape) && !(p.contains(KeyCode::Enter) && first_checked(
                states,
            ) is None)) ==> r.1 is None
        },
{
    let mut submits: Vec<Result<usize, Error>> = Vec::new();
    let mut feedback: Option<Feedback> = None;
    proof {
        let keys = seq![KeyCode::Escape, KeyCode::Enter, KeyCode::ArrowDown, KeyCode::ArrowUp];
        assert(forall|i: int| 0 <= i < 4 ==> keys.contains(#[trigger] keys[i]));
        assert(keys[0] == KeyCode::Escape && keys[1] == KeyCode::Enter);
    }
    if !input.any_just_pressed(
        &[KeyCode::Escape, KeyCode::Enter, KeyCode::ArrowDown, KeyCode::ArrowUp],
    ) {
        proof {
            assert(submits@ =~= radio_group_submits(radio_states(children@), input.pressed@));
        }
        return (submits, feedback);
    }
    if find_focused_radio(children, focus) {
        if input.just_pressed(KeyCode::Enter) {
            match selected_position(children) {
                Some(selection) => submits.push(Ok(selection)),
                None => feedback = Some(Feedback::warn("must select one")),
            }
        }
        if input.just_pressed(KeyCode::Escape) {
            submits.push(Err(Error::Cancel));
            feedback = Some(Feedback::error("canceled"));
        }
    }
    proof {
        assert(radio_child_focused(children@, focus.focus) ==> submits@ =~= radio_group_submits(
            radio_states(children@),
            input.pressed@,
        ));
    }
    (submits, feedback)
}

/// A radio group reads one state per radio child, in order: its states are
/// those of the children that are radios, and the other children contribute
/// nothing.
pub proof fn law_states_of_radio_children(children: Seq<(Entity, Option<Radio>)>)
    ensures
        radio_states(children) == children.filter(|x: (Entity, Option<Radio>)| x.1 is Some).map_values(
            |x: (Entity, Option<Radio>)| x.1->Some_0.checked,
        ),
    decreases children.len(),
{
    reveal(Seq::filter);
    let pred = |x: (Entity, Option<Radio>)| x.1 is Some;
    let f = |x: (Entity, Option<Radio>)| x.1->Some_0.checked;
    if children.len() > 0 {
        law_states_of_radio_children(children.drop_last());
        let sub = children.drop_last().filter(pred);
        if children.last().1 is Some {
            assert(sub.push(children.last()).map_values(f) =~= sub.map_values(f) + seq![
                children.last().1->Some_0.checked,
            ]);
        } else {
            assert(radio_states(children.drop_last()) + Seq::<bool>::empty() =~= radio_states(
                children.drop_last(),
            ));
        }
    }
}

/// On Enter a radio group submits the position of its first checked radio,
/// and nothing when none is checked; on Escape it submits a cancellation,
/// after any answer.
pub proof fn law_radio_group_submits(states: Seq<bool>, pressed: Seq<KeyCode>)
    requires
        states.len() <= usize::MAX,
    ensures
        pressed.contains(KeyCode::Enter) && (exists|i: int| 0 <= i < states.len() && states[i]) ==> {
            let r = radio_group_submits(states, pressed);
            &&& r.len() >= 1
            &&& r[0] is Ok
            &&& {
                let i = r[0]->Ok_0 as int;
                &&& 0 <= i < states.len()
                &&& states[i]
                &&& forall|j: int| 0 <= j < i ==> !states[j]
            }
        },
        !(exists|i: int| 0 <= i < states.len() && states[i]) || !pressed.contains(KeyCode::Enter)
            ==> radio_group_submits(states, pressed) == (if pressed.contains(KeyCode::Escape) {
            seq![Err::<usize, Error>(Error::Cancel)]
        } else {
            Seq::<Result<usize, Error>>::empty()
        }),
        pressed.contains(KeyCode::Escape) ==> radio_group_submits(states, pressed).last() == Err::<
            usize,
            Error,
        >(Error::Cancel),
{
    if exists|i: int| 0 <= i < states.len() && states[i] {
        let i = choose|i: int| 0 <= i < states.len() && states[i];
        let k = lemma_least_checked(states, i);
        lemma_first_checked(states, k);
    }
}

proof fn lemma_least_checked(states: Seq<bool>, i: int) -> (k: int)
    requires
        0 <= i < states.len(),
        states[i],
    ensures
        0 <= k <= i,
        states[k],
        forall|j: int| 0 <= j < k ==> !states[j],
    decreases i,
{
    if exists|j: int| 0 <= j < i && states[j] {
        let j = choose|j: int| 0 <= j < i && states[j];
        lemma_least_checked(states, j)
    } else {
        i
    }
}

/// A focused radio is unchecked by H, else checked by L, else flipped by
/// Space; pressing Space twice gives back its state.
pub proof fn law_radio_keys(checked: bool, pressed: Seq<KeyCode>)
    ensures
        pressed.contains(KeyCode::KeyH) ==> !radio_state(checked, pressed),
        !pressed.contains(KeyCode::KeyH) && pressed.contains(KeyCode::KeyL) ==> radio_state(checked, pressed),
        !pressed.contains(KeyCode::KeyH) && !pressed.contains(KeyCode::KeyL) && pressed.contains(
            KeyCode::Space,
        ) ==> radio_state(checked, pressed) == !checked,
        !radio_keys(pressed) ==> radio_state(checked, pressed) == checked,
        radio_state(radio_state(checked, seq![KeyCode::Space]), seq![KeyCode::Space]) == checked,
{
    assert(seq![KeyCode::Space].contains(KeyCode::Space)) by {
        assert(seq![KeyCode::Space][0] == KeyCode::Space);
    }
}

} // verus!
