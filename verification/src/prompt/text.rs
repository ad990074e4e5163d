//! One-line text and password fields, edited one key event at a time.
use crate::focus::FocusParam;
use crate::keys::{ButtonState, Key, KeyboardInput};
use crate::string_cursor::{
    cursor_backspace, cursor_delete, cursor_insert, cursor_move, cursor_valid, law_pos_matches_index,
    InputDirection, StringCursor,
};
use crate::utf8_text::{
    byte_len, char_width, lemma_byte_len_concat, lemma_char_width, lemma_insert_lens,
    lemma_prefix_mono, lemma_prefix_step, lemma_remove_lens, lemma_take_all,
};
use crate::{Entity, Error};
use vstd::prelude::*;

verus! {

/// Prompt to get one-line user input.
///
/// # Key Events
///
/// | Key         | Action                       |
/// | ----------- | ---------------------------- |
/// | `Enter`     | Submit current/initial value |
/// | `Backspace` | Delete previous character    |
/// | `Delete`    | Delete current character     |
/// | `Left`      | Move cursor left             |
/// | `Right`     | Move cursor right            |
#[derive(Debug, Clone, Copy, PartialEq, Eq)]
pub struct TextField;

/// Prompt to get one-line user input whose characters are not shown.
///
/// It takes the same key events as [TextField].
#[derive(Debug, Clone, Copy, PartialEq, Eq)]
pub struct Password;

/// Typing the text `t` at the cursor: it goes in before the cursor.
pub open spec fn insert_text(c: (Seq<char>, int), t: Seq<char>) -> (Seq<char>, int) {
    (c.0.take(c.1) + t + c.0.skip(c.1), c.1 + t.len())
}

/// The text and cursor after one key event; only pressed keys count.
pub open spec fn text_edit(c: (Seq<char>, int), ev: KeyboardInput) -> (Seq<char>, int) {
    if ev.state == ButtonState::Pressed {
        match ev.logical_key {
            Key::Character(s) => insert_text(c, s@),
            Key::Space => cursor_insert(c, ' '),
            Key::Backspace => cursor_backspace(c),
            Key::Delete => cursor_delete(c),
            Key::ArrowLeft => cursor_move(c, InputDirection::Left),
            Key::ArrowRight => cursor_move(c, InputDirection::Right),
            _ => c,
        }
    } else {
        c
    }
}

/// What one key event submits: Enter the current text, Escape a cancellation.
pub open spec fn text_submit(c: (Seq<char>, int), ev: KeyboardInput) -> Option<Result<Seq<char>, Error>> {
    if ev.state == ButtonState::Pressed {
        match ev.logical_key {
            Key::Enter => Some(Ok(c.0)),
            Key::Escape => Some(Err(Error::Cancel)),
            _ => None,
        }
    } else {
        None
    }
}

/// The number of bytes that one key event can add to the text.
pub open spec fn event_bytes(ev: KeyboardInput) -> nat {
    if ev.state == ButtonState::Pressed {
        match ev.logical_key {
            Key::Character(s) => byte_len(s@),
            Key::Space => 1,
            _ => 0,
        }
    } else {
        0
    }
}

/// A submission with its text taken by its characters.
pub open spec fn submission_view(r: Result<String, Error>) -> Result<Seq<char>, Error> {
    match r {
        Ok(s) => Ok(s@),
        Err(e) => Err(e),
    }
}

proof fn lemma_text_edit_len(c: (Seq<char>, int), ev: KeyboardInput)
    requires
        cursor_valid(c),
    ensures
        cursor_valid(text_edit(c, ev)),
        byte_len(text_edit(c, ev).0) <= byte_len(c.0) + event_bytes(ev),
{
    if ev.state == ButtonState::Pressed {
        match ev.logical_key {
            Key::Character(s) => {
                let t = s@;
                lemma_byte_len_concat(c.0.take(c.1) + t, c.0.skip(c.1));
                lemma_byte_len_concat(c.0.take(c.1), t);
                lemma_byte_len_concat(c.0.take(c.1), c.0.skip(c.1));
                assert(c.0.take(c.1) + c.0.skip(c.1) =~= c.0);
            },
            Key::Space => {
                lemma_insert_lens(c.0, c.1, ' ');
                assert(char_width(' ') == 1);
            },
            Key::Backspace => {
                if c.1 > 0 {
                    lemma_remove_lens(c.0, c.1 - 1);
                }
            },
            Key::Delete => {
                if c.1 < c.0.len() {
                    lemma_remove_lens(c.0, c.1);
                }
            },
            _ => {},
        }
    }
}

/// Type the characters of `s` at the cursor, one at a time.
fn type_text(cursor: &mut StringCursor, s: &str)
    requires
        old(cursor).wf(),
        byte_len(old(cursor).value@) + byte_len(s@) <= isize::MAX,
    ensures
        final(cursor).wf(),
        final(cursor)@ == insert_text(old(cursor)@, s@),
{
    let ghost c0 = cursor@;
    let ghost t = s@;
    proof {
        law_pos_matches_index(cursor);
        assert(c0.0.take(c0.1) + t.take(0) + c0.0.skip(c0.1) =~= c0.0);
    }
    let n = s.unicode_len();
    let mut i: usize = 0;
    while i < n
        invariant
            n == t.len(),
            t == s@,
            0 <= i <= n,
            cursor_valid(c0),
            cursor.wf(),
            cursor@ == insert_text(c0, t.take(i as int)),
            byte_len(cursor.value@) == byte_len(c0.0) + byte_len(t.take(i as int)),
            byte_len(c0.0) + byte_len(t) <= isize::MAX,
        decreases n - i,
    {
        let ch = s.get_char(i);
        proof {
            lemma_prefix_step(t, i as int);
            lemma_prefix_mono(t, i as int + 1, t.len() as int);
            lemma_take_all(t);
            law_pos_matches_index(cursor);
        }
        cursor.insert(ch);
        proof {
            let prev = insert_text(c0, t.take(i as int));
            assert(t.take(i + 1) =~= t.take(i as int).push(ch));
            assert(prev.0.insert(prev.1, ch) =~= c0.0.take(c0.1) + t.take(i + 1) + c0.0.skip(c0.1));
            lemma_insert_lens(prev.0, prev.1, ch);
        }
        i = i + 1;
    }
    proof {
        assert(t.take(n as int) =~= t);
    }
}

/// Apply one key event to a text field's value and cursor. Enter submits the
/// current text and Escape cancels; released keys do nothing.
pub fn text_key(cursor: &mut StringCursor, ev: &KeyboardInput) -> (r: Option<Result<String, Error>>)
    requires
        old(cursor).wf(),
        byte_len(old(cursor).value@) + event_bytes(*ev) <= isize::MAX,
    ensures
        final(cursor).wf(),
        final(cursor)@ == text_edit(old(cursor)@, *ev),
        r matches Some(x) ==> text_submit(old(cursor)@, *ev) == Some(submission_view(x)),
        r is None ==> text_submit(old(cursor)@, *ev) is None,
{
    if ev.state != ButtonState::Pressed {
        return None;
    }
    match &ev.logical_key {
        Key::Character(s) => {
            type_text(cursor, s.as_str());
            None
        },
        Key::Space => {
            proof {
                assert(char_width(' ') == 1);
            }
            cursor.insert(' ');
            None
        },
        Key::Backspace => {
            cursor.backspace();
            None
        },
        Key::Delete => {
            cursor.delete();
            None
        },
        Key::ArrowLeft => {
            cursor.move_cursor(InputDirection::Left);
            None
        },
        Key::ArrowRight => {
            cursor.move_cursor(InputDirection::Right);
            None
        },
        Key::Enter => Some(Ok(cursor.value.clone())),
        Key::Escape => Some(Err(Error::Cancel)),
        Key::Other => None,
    }
}

/// The text and cursor after a run of key events, in order.
pub open spec fn text_keys(c: (Seq<char>, int), evs: Seq<KeyboardInput>) -> (Seq<char>, int)
    decreases evs.len(),
{
    if evs.len() == 0 {
        c
    } else {
        text_edit(text_keys(c, evs.drop_last()), evs.last())
    }
}

/// What a run of key events submits, in order.
pub open spec fn text_submits(c: (Seq<char>, int), evs: Seq<KeyboardInput>) -> Seq<Result<Seq<char>, Error>>
    decreases evs.len(),
{
    if evs.len() == 0 {
        Seq::empty()
    } else {
        text_submits(c, evs.drop_last()) + match text_submit(text_keys(c, evs.drop_last()), evs.last()) {
            Some(x) => seq![x],
            None => Seq::empty(),
        }
    }
}

/// The number of bytes that a run of key events can add to the text.
pub open spec fn events_bytes(evs: Seq<KeyboardInput>) -> nat
    decreases evs.len(),
{
    if evs.len() == 0 {
        0
    } else {
        events_bytes(evs.drop_last()) + event_bytes(evs.last())
    }
}

proof fn lemma_events_bytes_prefix(evs: Seq<KeyboardInput>, k: int)
    requires
        0 <= k <= evs.len(),
    ensures
        events_bytes(evs.take(k)) <= events_bytes(evs),
    decreases evs.len() - k,
{
    if k < evs.len() {
        lemma_events_bytes_prefix(evs, k + 1);
        assert(evs.take(k + 1).drop_last() =~= evs.take(k));
    } else {
        assert(evs.take(k) =~= evs);
    }
}

/// Apply a run of key events to a text field, collecting what they submit.
fn text_events(cursor: &mut StringCursor, id: Entity, events: &[KeyboardInput]) -> (r: Vec<(Entity, Result<String, Error>)>)
    requires
        old(cursor).wf(),
        byte_len(old(cursor).value@) + events_bytes(events@) <= isize::MAX,
    ensures
        final(cursor).wf(),
        final(cursor)@ == text_keys(old(cursor)@, events@),
        r@.len() == text_submits(old(cursor)@, events@).len(),
        forall|k: int|
            0 <= k < r@.len() ==> (#[trigger] r@[k]).0 == id && submission_view(r@[k].1)
                == text_submits(old(cursor)@, events@)[k],
{
    let ghost c0 = cursor@;
    let ghost b0 = byte_len(cursor.value@);
    let ghost evs = events@;
    let mut out: Vec<(Entity, Result<String, Error>)> = Vec::new();
    let mut i: usize = 0;
    proof {
        law_pos_matches_index(cursor);
        assert(evs.take(0) =~= Seq::<KeyboardInput>::empty());
    }
    while i < events.len()
        invariant
            evs == events@,
            0 <= i <= evs.len(),
            cursor.wf(),
            cursor_valid(c0),
            cursor@ == text_keys(c0, evs.take(i as int)),
            byte_len(cursor.value@) <= b0 + events_bytes(evs.take(i as int)),
            b0 + events_bytes(evs) <= isize::MAX,
            out@.len() == text_submits(c0, evs.take(i as int)).len(),
            forall|k: int|
                0 <= k < out@.len() ==> (#[trigger] out@[k]).0 == id && submission_view(out@[k].1)
                    == text_submits(c0, evs.take(i as int))[k],
        decreases evs.len() - i,
    {
        let ghost before = cursor@;
        let ghost prev = out@;
        proof {
            assert(evs.take(i + 1).drop_last() =~= evs.take(i as int));
            assert(evs.take(i + 1).last() == evs[i as int]);
            lemma_events_bytes_prefix(evs, i + 1);
            law_pos_matches_index(cursor);
        }
        let r = text_key(cursor, &events[i]);
        match r {
            Some(x) => {
                out.push((id, x));
            },
            None => {},
        }
        proof {
            lemma_text_edit_len(before, evs[i as int]);
            let subs = text_submits(c0, evs.take(i + 1));
            assert(out@.len() == subs.len());
            assert forall|k: int| 0 <= k < out@.len() implies (#[trigger] out@[k]).0 == id
                && submission_view(out@[k].1) == subs[k] by {
                if k < prev.len() {
                    assert(out@[k] == prev[k]);
                }
            }
        }
        i = i + 1;
    }
    proof {
        assert(evs.take(evs.len() as int) =~= evs);
    }
    out
}

/// The position of the first text prompt that has the focus.
#[verifier::opaque]
pub open spec fn first_focused(s: Seq<(Entity, StringCursor)>, focus: Option<Entity>) -> Option<int> {
    if exists|j: int| 0 <= j < s.len() && focus == Some(#[trigger] s[j].0) {
        Some(choose|j: int| 0 <= j < s.len() && focus == Some(#[trigger] s[j].0) && forall|m: int|
            0 <= m < j ==> focus != Some(#[trigger] s[m].0))
    } else {
        None
    }
}

/// The first focused text prompt is the one at `j` when it has the focus and
/// none before it does.
pub proof fn lemma_first_focused(s: Seq<(Entity, StringCursor)>, focus: Option<Entity>, j: int)
    requires
        0 <= j < s.len(),
        focus == Some(s[j].0),
        forall|m: int| 0 <= m < j ==> focus != Some(#[trigger] s[m].0),
    ensures
        first_focused(s, focus) == Some(j),
{
    reveal(first_focused);
    let c = choose|c: int| 0 <= c < s.len() && focus == Some(#[trigger] s[c].0) && forall|m: int|
        0 <= m < c ==> focus != Some(#[trigger] s[m].0);
    if c < j {
        assert(focus != Some(s[c].0));
    } else if j < c {
        assert(focus != Some(s[j].0));
    }
}

/// What `first_focused` gives: the position of a focused prompt with none
/// focused before it, or `None` when no prompt has the focus.
pub proof fn lemma_first_focused_meaning(s: Seq<(Entity, StringCursor)>, focus: Option<Entity>)
    ensures
        match first_focused(s, focus) {
            Some(j) => 0 <= j < s.len() && focus == Some(s[j].0) && forall|m: int|
                0 <= m < j ==> focus != Some(#[trigger] s[m].0),
            None => forall|j: int| 0 <= j < s.len() ==> focus != Some(#[trigger] s[j].0),
        },
{
    reveal(first_focused);
    if exists|j: int| 0 <= j < s.len() && focus == Some(#[trigger] s[j].0) {
        let k = choose|j: int| 0 <= j < s.len() && focus == Some(#[trigger] s[j].0);
        let m = lemma_least_focused(s, focus, k);
        lemma_first_focused(s, focus, m);
    }
}

proof fn lemma_least_focused(s: Seq<(Entity, StringCursor)>, focus: Option<Entity>, k: int) -> (m: int)
    requires
        0 <= k < s.len(),
        focus == Some(s[k].0),
    ensures
        0 <= m <= k,
        focus == Some(s[m].0),
        forall|i: int| 0 <= i < m ==> focus != Some(#[trigger] s[i].0),
    decreases k,
{
    if exists|i: int| 0 <= i < k && focus == Some(#[trigger] s[i].0) {
        let i = choose|i: int| 0 <= i < k && focus == Some(#[trigger] s[i].0);
        lemma_least_focused(s, focus, i)
    } else {
        k
    }
}

/// Feed the key events to the focused text or password prompt, and turn
/// keyboard navigation off while one has the focus. Returns what was
/// submitted, with the entity of the prompt that submitted it.
pub fn text_controller(
    prompts: &mut Vec<(Entity, StringCursor)>,
    focus: &mut FocusParam,
    events: &[KeyboardInput],
) -> (r: Vec<(Entity, Result<String, Error>)>)
    requires
        forall|j: int|
            0 <= j < old(prompts)@.len() && old(focus).focus == Some(#[trigger] old(prompts)@[j].0)
                ==> old(prompts)@[j].1.wf() && byte_len(old(prompts)@[j].1.value@) + events_bytes(
                events@,
            ) <= isize::MAX,
    ensures
        final(prompts)@.len() == old(prompts)@.len(),
        forall|j: int|
            0 <= j < old(prompts)@.len() ==> (#[trigger] final(prompts)@[j]).0 == old(prompts)@[j].0
                && if first_focused(old(prompts)@, old(focus).focus) == Some(j) {
                final(prompts)@[j].1.wf() && final(prompts)@[j].1@ == text_keys(
                    old(prompts)@[j].1@,
                    events@,
                )
            } else {
                final(prompts)@[j].1 == old(prompts)@[j].1
            },
        match first_focused(old(prompts)@, old(focus).focus) {
            Some(f) => {
                let subs = text_submits(old(prompts)@[f].1@, events@);
                &&& r@.len() == subs.len()
                &&& forall|k: int|
                    0 <= k < r@.len() ==> (#[trigger] r@[k]).0 == old(prompts)@[f].0
                        && submission_view(r@[k].1) == subs[k]
            },
            None => r@.len() == 0,
        },
        final(focus).keyboard_nav == (first_focused(old(prompts)@, old(focus).focus) is None),
        final(focus).focus == old(focus).focus,
        final(focus).entries@ == old(focus).entries@,
{
    let ghost s = prompts@;
    // Only the first focused prompt reads the events.
    match find_first_focused(prompts, focus) {
        Some(f) => {
            let id = prompts[f].0;
            let out = text_events(&mut prompts[f].1, id, events);
            focus.set_keyboard_nav(false);
            proof {
                assert forall|j: int| 0 <= j < s.len() && j != f implies #[trigger] prompts@[j] == s[j] by {}
            }
            out
        },
        None => {
            focus.set_keyboard_nav(true);
            Vec::new()
        },
    }
}

fn find_first_focused(prompts: &Vec<(Entity, StringCursor)>, focus: &FocusParam) -> (r: Option<usize>)
    ensures
        r matches Some(f) ==> f < prompts@.len() && focus.focus == Some(prompts@[f as int].0)
            && first_focused(prompts@, focus.focus) == Some(
            f as int,
        ),
        r is None ==> first_focused(prompts@, focus.focus) is None,
{
    let mut i: usize = 0;
    while i < prompts.len()
        invariant
            0 <= i <= prompts@.len(),
            forall|m: int| 0 <= m < i ==> focus.focus != Some(#[trigger] prompts@[m].0),
        decreases prompts@.len() - i,
    {
        if focus.is_focused(prompts[i].0) {
            proof {
                lemma_first_focused(prompts@, focus.focus, i as int);
            }
            return Some(i);
        }
        i = i + 1;
    }
    proof {
        reveal(first_focused);
    }
    None
}

/// What each pressed key does to a text field, over its characters and the
/// number of them before the cursor: typed text goes in before the cursor,
/// Space types a space, Backspace removes the character before the cursor
/// and Delete the one after it, the arrows move one character; Enter submits
/// the text and Escape cancels. Released keys do nothing.
pub proof fn law_text_keys(c: (Seq<char>, int), ev: KeyboardInput)
    requires
        cursor_valid(c),
    ensures
        ev.state != ButtonState::Pressed ==> text_edit(c, ev) == c && text_submit(c, ev) is None,
        ev.state == ButtonState::Pressed ==> match ev.logical_key {
            Key::Character(s) => text_edit(c, ev) == (c.0.take(c.1) + s@ + c.0.skip(c.1), c.1 + s@.len())
                && text_submit(c, ev) is None,
            Key::Space => text_edit(c, ev) == (c.0.take(c.1) + seq![' '] + c.0.skip(c.1), c.1 + 1)
                && text_submit(c, ev) is None,
            Key::Backspace => text_edit(c, ev) == (if c.1 > 0 {
                (c.0.take(c.1 - 1) + c.0.skip(c.1), c.1 - 1)
            } else {
                c
            }),
            Key::Delete => text_edit(c, ev) == (if c.1 < c.0.len() {
                (c.0.take(c.1) + c.0.skip(c.1 + 1), c.1)
            } else {
                c
            }),
            Key::ArrowLeft => text_edit(c, ev) == (c.0, if c.1 > 0 { c.1 - 1 } else { 0 }),
            Key::ArrowRight => text_edit(c, ev) == (c.0, if c.1 < c.0.len() { c.1 + 1 } else { c.1 }),
            Key::Enter => text_edit(c, ev) == c && text_submit(c, ev) == Some(Ok::<Seq<char>, Error>(c.0)),
            Key::Escape => text_edit(c, ev) == c && text_submit(c, ev) == Some(
                Err::<Seq<char>, Error>(Error::Cancel),
            ),
            _ => text_edit(c, ev) == c,
        },
{
    assert(c.0.insert(c.1, ' ') =~= c.0.take(c.1) + seq![' '] + c.0.skip(c.1));
    if c.1 > 0 {
        assert(c.0.remove(c.1 - 1) =~= c.0.take(c.1 - 1) + c.0.skip(c.1));
    }
    if c.1 < c.0.len() {
        assert(c.0.remove(c.1) =~= c.0.take(c.1) + c.0.skip(c.1 + 1));
    }
}

} // verus!
