//! One-line text input whose cursor counts characters but indexes the
//! text by byte, and the text prompt that describes it.
use crate::std_string::{string_insert, string_remove};
use crate::utf8_text::{
    byte_len, char_index, char_width, is_boundary, lemma_char_index_of_prefix, lemma_prefix_step,
};
use vstd::prelude::*;

verus! {

/// Direction in which to move a [LineInput] cursor.
#[derive(Debug, Clone, Copy, PartialEq, Eq)]
pub enum Direction {
    Left,
    Right,
}

/// State of the user input for read-line text prompts (like [TextInput]).
#[derive(Debug, PartialEq, Eq, Default)]
pub struct LineInput {
    /// Current value of the input.
    pub value: String,
    /// Current position of the cursor.
    pub col: usize,
}

impl LineInput {
    /// Replace the value and put the cursor after its last character.
    pub fn set_value(&mut self, value: &str)
        ensures
            final(self).value@ == value@,
            final(self).col == value@.len(),
    {
        self.value = value.to_owned();
        self.col = value.unicode_len();
    }

    /// Insert `ch` at byte offset `col` and advance the cursor by one.
    pub fn insert(&mut self, ch: char)
        requires
            is_boundary(old(self).value@, old(self).col as int),
            byte_len(old(self).value@) + char_width(ch) <= isize::MAX,
        ensures
            final(self).value@ == old(self).value@.insert(
                char_index(old(self).value@, old(self).col as int),
                ch,
            ),
            final(self).col == old(self).col + 1,
    {
        proof {
            crate::utf8_text::lemma_boundary_range(old(self).value@, old(self).col as int);
        }
        string_insert(&mut self.value, self.col, ch);
        self.col = self.col + 1;
    }

    /// Move the cursor back by one and delete the character starting there,
    /// when the value is not empty and the cursor is not at the start.
    pub fn backspace(&mut self)
        requires
            old(self).value@.len() > 0 && old(self).col > 0 ==> {
                &&& is_boundary(old(self).value@, old(self).col - 1)
                &&& old(self).col - 1 < byte_len(old(self).value@)
            },
        ensures
            old(self).value@.len() > 0 && old(self).col > 0 ==> {
                &&& final(self).col == old(self).col - 1
                &&& final(self).value@ == old(self).value@.remove(
                    char_index(old(self).value@, old(self).col - 1),
                )
            },
            !(old(self).value@.len() > 0 && old(self).col > 0) ==> *final(self) == *old(self),
    {
        if !self.value.as_str().is_empty() && self.col > 0 {
            self.col = self.col - 1;
            string_remove(&mut self.value, self.col);
        }
    }

    /// Delete the character starting at byte offset `col`, when there is one.
    pub fn delete(&mut self)
        requires
            byte_len(old(self).value@) <= usize::MAX,
            old(self).col < byte_len(old(self).value@) ==> is_boundary(
                old(self).value@,
                old(self).col as int,
            ),
        ensures
            final(self).col == old(self).col,
            old(self).col < byte_len(old(self).value@) ==> final(self).value@
                == old(self).value@.remove(char_index(old(self).value@, old(self).col as int)),
            old(self).col >= byte_len(old(self).value@) ==> final(self).value@ == old(self).value@,
    {
        if !self.value.as_str().is_empty() && self.col < self.value.as_str().len() {
            string_remove(&mut self.value, self.col);
        }
    }

    /// Move the cursor by one, not below zero nor past the value's byte length.
    pub fn move_cursor(&mut self, position: Direction)
        requires
            byte_len(old(self).value@) <= usize::MAX,
            old(self).col < usize::MAX,
        ensures
            final(self).value@ == old(self).value@,
            final(self).col == match position {
                Direction::Left => if old(self).col > 0 {
                    old(self).col - 1
                } else {
                    0
                },
                Direction::Right => if old(self).col + 1 < byte_len(old(self).value@) {
                    old(self).col + 1
                } else {
                    byte_len(old(self).value@) as int
                },
            },
    {
        self.col = match position {
            Direction::Left => self.col.saturating_sub(1),
            Direction::Right => {
                let len = self.value.as_str().len();
                if self.col + 1 < len {
                    self.col + 1
                } else {
                    len
                }
            },
        };
    }
}

/// Prompt to get one-line user input.
///
/// | Key         | Action                       |
/// | ----------- | ---------------------------- |
/// | `Enter`     | Submit current/initial value |
/// | `Backspace` | Delete previous character    |
/// | `Delete`    | Delete current character     |
/// | `Left`      | Move cursor left             |
/// | `Right`     | Move cursor right            |
pub struct TextInput {
    /// Message used to display in the prompt
    pub message: String,
    /// Placeholder to show when the input is empty
    pub placeholder: Option<String>,
    /// Default value to submit when the input is empty
    pub default_value: Option<String>,
}

impl TextInput {
    /// Create a new text prompt with no placeholder and no default value.
    pub fn new(message: &str) -> (t: Self)
        ensures
            t.message@ == message@,
            t.placeholder is None,
            t.default_value is None,
    {
        TextInput { message: message.to_owned(), placeholder: None, default_value: None }
    }

    /// Set text to show when the input is empty.
    ///
    /// This will not be submitted when the input is empty.
    pub fn placeholder(&mut self, value: &str) -> (r: &mut Self)
        ensures
            r.message == old(self).message,
            r.default_value == old(self).default_value,
            r.placeholder matches Some(p) && p@ == value@,
            *final(self) == *final(r),
    {
        self.placeholder = Some(value.to_owned());
        self
    }

    /// Set default value to submit when the input is empty.
    pub fn default(&mut self, value: &str) -> (r: &mut Self)
        ensures
            r.message == old(self).message,
            r.placeholder == old(self).placeholder,
            r.default_value matches Some(d) && d@ == value@,
            *final(self) == *final(r),
    {
        self.default_value = Some(value.to_owned());
        self
    }
}

/// Every character of the text is ASCII, one byte long.
pub open spec fn ascii_text(s: Seq<char>) -> bool {
    forall|i: int| 0 <= i < s.len() ==> (#[trigger] s[i] as u32) < 128
}

proof fn lemma_ascii_prefix(s: Seq<char>, k: int)
    requires
        ascii_text(s),
        0 <= k <= s.len(),
    ensures
        byte_len(s.take(k)) == k,
    decreases k,
{
    if k == 0 {
        assert(s.take(0) =~= Seq::<char>::empty());
    } else {
        lemma_ascii_prefix(s, k - 1);
        lemma_prefix_step(s, k - 1);
        assert((s[k - 1] as u32) < 128);
    }
}

/// On ASCII text a byte offset is a character position: every offset up to
/// the length is a boundary, and the characters before it number as many.
proof fn lemma_ascii_positions(s: Seq<char>, k: int)
    requires
        ascii_text(s),
        0 <= k <= s.len(),
    ensures
        is_boundary(s, k),
        char_index(s, k) == k,
{
    lemma_ascii_prefix(s, k);
    lemma_char_index_of_prefix(s, k);
}

/// On an ASCII input whose cursor lies within its value, inserting an ASCII
/// character and then deleting with backspace gives back the value and cursor
/// from before: the insertion may be made there, it takes one byte, the
/// backspace that follows deletes, and it leaves the value and cursor of `s0`.
pub proof fn law_line_backspace_undoes_insert(s0: LineInput, ch: char)
    requires
        ascii_text(s0.value@),
        (ch as u32) < 128,
        s0.col <= s0.value@.len(),
    ensures
        is_boundary(s0.value@, s0.col as int),
        char_width(ch) == 1,
        ({
            let v = s0.value@.insert(char_index(s0.value@, s0.col as int), ch);
            let col = s0.col + 1;
            &&& v.len() > 0 && col > 0
            &&& is_boundary(v, col - 1)
            &&& col - 1 < byte_len(v)
            &&& v.remove(char_index(v, col - 1)) == s0.value@
            &&& col - 1 == s0.col
        }),
{
    let v = s0.value@;
    let col = s0.col as int;
    lemma_ascii_positions(v, col);
    let v2 = v.insert(col, ch);
    assert(ascii_text(v2)) by {
        assert forall|i: int| 0 <= i < v2.len() implies (#[trigger] v2[i] as u32) < 128 by {
            if i < col {
                assert(v2[i] == v[i]);
            } else if i > col {
                assert(v2[i] == v[i - 1]);
            }
        }
    }
    lemma_ascii_positions(v2, col);
    lemma_ascii_prefix(v2, v2.len() as int);
    assert(v2.take(v2.len() as int) =~= v2);
    assert(v2.remove(col) =~= v);
}

} // verus!
