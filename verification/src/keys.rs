//! Keyboard input: keys that were just pressed, and logical key events.
use vstd::prelude::*;

verus! {

/// Physical keys that prompts react to; every other key is `Other`.
#[derive(Debug, Clone, Copy, PartialEq, Eq, Structural, Hash)]
pub enum KeyCode {
    KeyY,
    KeyN,
    KeyH,
    KeyL,
    ArrowUp,
    ArrowDown,
    ArrowLeft,
    ArrowRight,
    Enter,
    Escape,
    Space,
    Tab,
    Other,
}

/// The keys that were pressed since the last update.
#[derive(Debug, Clone)]
pub struct ButtonInput {
    /// Just-pressed keys, in the order they were pressed.
    pub pressed: Vec<KeyCode>,
}

impl ButtonInput {
    /// No key pressed.
    pub fn new() -> (b: Self)
        ensures
            b.pressed@ == Seq::<KeyCode>::empty(),
    {
        ButtonInput { pressed: Vec::new() }
    }

    /// Record that `key` was just pressed.
    pub fn press(&mut self, key: KeyCode)
        ensures
            final(self).pressed@ == old(self).pressed@.push(key),
    {
        self.pressed.push(key);
    }

    /// Was `key` just pressed?
    pub fn just_pressed(&self, key: KeyCode) -> (r: bool)
        ensures
            r == self.pressed@.contains(key),
    {
        let mut i: usize = 0;
        while i < self.pressed.len()
            invariant
                i <= self.pressed.len(),
                forall|j: int| 0 <= j < i ==> self.pressed@[j] != key,
            decreases self.pressed.len() - i,
        {
            if self.pressed[i] == key {
                return true;
            }
            i = i + 1;
        }
        false
    }

    /// Was any of `keys` just pressed?
    pub fn any_just_pressed(&self, keys: &[KeyCode]) -> (r: bool)
        ensures
            r == exists|k: KeyCode| keys@.contains(k) && self.pressed@.contains(k),
    {
        let mut i: usize = 0;
        while i < keys.len()
            invariant
                i <= keys.len(),
                forall|j: int| 0 <= j < i ==> !self.pressed@.contains(#[trigger] keys@[j]),
            decreases keys.len() - i,
        {
            if self.just_pressed(keys[i]) {
                assert(keys@.contains(keys@[i as int]));
                return true;
            }
            i = i + 1;
        }
        false
    }
}

/// The logical meaning of a key event.
#[derive(Debug, Clone, PartialEq, Eq)]
pub enum Key {
    /// Typed text.
    Character(String),
    Space,
    Backspace,
    Delete,
    ArrowLeft,
    ArrowRight,
    Enter,
    Escape,
    Other,
}

/// Whether a key went down or up.
#[derive(Debug, Clone, Copy, PartialEq, Eq, Structural)]
pub enum ButtonState {
    Pressed,
    Released,
}

/// A keyboard event.
#[derive(Debug, Clone, PartialEq, Eq)]
pub struct KeyboardInput {
    /// What the key means.
    pub logical_key: Key,
    /// Pressed or released.
    pub state: ButtonState,
}

} // verus!
