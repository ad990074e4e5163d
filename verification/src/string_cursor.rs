//! A text value with a cursor kept on UTF-8 character boundaries, and the
//! character-boundary searches it relies on.
use crate::std_string::{string_drain, string_insert, string_pop, string_remove};
use crate::utf8_text::{
    byte_len, char_index, char_width, is_boundary, lemma_boundary_iff, lemma_boundary_range,
    lemma_char_index_of_prefix, lemma_char_width, lemma_insert_lens, lemma_prefix_inj,
    lemma_prefix_mono, lemma_remove_lens, lemma_take_all,
};
use vstd::prelude::*;

verus! {

/// Direction in which to move a [StringCursor].
#[derive(Debug, Clone, Copy, PartialEq, Eq)]
pub enum InputDirection {
    Left,
    Right,
}

/// Number of bytes in the UTF-8 encoding of `c`.
pub fn utf8_width(c: char) -> (w: usize)
    ensures
        w == char_width(c),
{
    let u = c as u32;
    if u < 0x80 {
        1
    } else if u < 0x800 {
        2
    } else if u < 0x10000 {
        3
    } else {
        4
    }
}

/// The greatest character boundary of `s` at or below `i`; the length of `s`
/// when `i` is past its end.
pub fn floor_char_boundary(s: &str, i: usize) -> (r: usize)
    requires
        byte_len(s@) <= usize::MAX,
    ensures
        i > byte_len(s@) ==> r == byte_len(s@),
        i <= byte_len(s@) ==> {
            &&& r <= i
            &&& is_boundary(s@, r as int)
            &&& forall|j: int| r < j <= i ==> !is_boundary(s@, j)
        },
{
    proof {
        lemma_boundary_iff(s@, 0);
        assert(byte_len(s@.take(0)) == 0) by {
            assert(s@.take(0) =~= Seq::<char>::empty());
        }
    }
    if i > s.len() {
        s.len()
    } else {
        let ghost orig = i;
        let mut i = i;
        while !s.is_char_boundary(i)
            invariant
                i <= orig <= byte_len(s@),
                byte_len(s@) <= usize::MAX,
                is_boundary(s@, 0),
                forall|j: int| i < j <= orig ==> !is_boundary(s@, j),
            decreases i,
        {
            proof {
                lemma_boundary_iff(s@, i as int);
            }
            i = i - 1;
        }
        proof {
            lemma_boundary_iff(s@, i as int);
        }
        i
    }
}

/// The least character boundary of `s` at or above `i`; the length of `s`
/// when `i` is past its end.
pub fn ceil_char_boundary(s: &str, i: usize) -> (r: usize)
    requires
        byte_len(s@) <= usize::MAX,
    ensures
        i > byte_len(s@) ==> r == byte_len(s@),
        i <= byte_len(s@) ==> {
            &&& i <= r <= byte_len(s@)
            &&& is_boundary(s@, r as int)
            &&& forall|j: int| i <= j < r ==> !is_boundary(s@, j)
        },
{
    proof {
        lemma_take_all(s@);
        assert(is_boundary(s@, byte_len(s@) as int));
    }
    if i > s.len() {
        s.len()
    } else {
        let ghost orig = i;
        let mut i = i;
        while !s.is_char_boundary(i)
            invariant
                orig <= i <= byte_len(s@),
                byte_len(s@) <= usize::MAX,
                is_boundary(s@, byte_len(s@) as int),
                forall|j: int| orig <= j < i ==> !is_boundary(s@, j),
            decreases byte_len(s@) - i,
        {
            proof {
                lemma_boundary_iff(s@, i as int);
            }
            i = i + 1;
        }
        proof {
            lemma_boundary_iff(s@, i as int);
        }
        i
    }
}

/// Inserting `ch` at the cursor of the cursor state `c`, which is the text and
/// the number of its characters before the cursor.
pub open spec fn cursor_insert(c: (Seq<char>, int), ch: char) -> (Seq<char>, int) {
    (c.0.insert(c.1, ch), c.1 + 1)
}

/// Deleting the character before the cursor; nothing happens at the start.
pub open spec fn cursor_backspace(c: (Seq<char>, int)) -> (Seq<char>, int) {
    if c.1 > 0 {
        (c.0.remove(c.1 - 1), c.1 - 1)
    } else {
        c
    }
}

/// Deleting the character after the cursor; nothing happens at the end.
pub open spec fn cursor_delete(c: (Seq<char>, int)) -> (Seq<char>, int) {
    if c.1 < c.0.len() {
        (c.0.remove(c.1), c.1)
    } else {
        c
    }
}

/// Moving the cursor one character, not past either end of the text.
pub open spec fn cursor_move(c: (Seq<char>, int), dir: InputDirection) -> (Seq<char>, int) {
    match dir {
        InputDirection::Left => if c.1 > 0 {
            (c.0, c.1 - 1)
        } else {
            c
        },
        InputDirection::Right => if c.1 < c.0.len() {
            (c.0, c.1 + 1)
        } else {
            c
        },
    }
}

/// A cursor state whose position lies within its text.
pub open spec fn cursor_valid(c: (Seq<char>, int)) -> bool {
    0 <= c.1 <= c.0.len()
}

/// State of the user input for read-line text prompts: the text typed so far
/// and the byte offset of the cursor in it, kept on character boundaries.
#[derive(Debug, PartialEq, Eq)]
pub struct StringCursor {
    /// Current value of the input.
    pub value: String,
    /// Current index of the cursor (kept on UTF-8 char boundaries).
    pub index: usize,
}

impl View for StringCursor {
    type V = (Seq<char>, int);

    /// The characters of the value and the number of them before the cursor.
    open spec fn view(&self) -> (Seq<char>, int) {
        (self.value@, self.pos())
    }
}

impl Default for StringCursor {
    /// An empty value with the cursor at its start.
    fn default() -> (c: Self)
        ensures
            c.wf(),
            c@ == (Seq::<char>::empty(), 0int),
            c.index == 0,
    {
        let c = StringCursor { value: String::new(), index: 0 };
        proof {
            lemma_char_index_of_prefix(c.value@, 0);
            assert(c.value@.take(0) =~= c.value@);
        }
        c
    }
}

impl StringCursor {
    /// The value fits in memory and the cursor sits on one of its character
    /// boundaries.
    pub open spec fn wf(&self) -> bool {
        &&& byte_len(self.value@) <= isize::MAX
        &&& is_boundary(self.value@, self.index as int)
    }

    /// The number of characters before the cursor.
    pub open spec fn pos(&self) -> int {
        char_index(self.value@, self.index as int)
    }

    /// Replace the value and put the cursor at its end.
    pub fn set_value(&mut self, value: &str)
        requires
            byte_len(value@) <= isize::MAX,
        ensures
            final(self).wf(),
            final(self)@ == (value@, value@.len() as int),
    {
        self.value = value.to_owned();
        self.index = self.value.as_str().len();
        proof {
            lemma_take_all(self.value@);
            lemma_char_index_of_prefix(self.value@, self.value@.len() as int);
        }
    }

    /// Insert `ch` at the cursor and move the cursor past it.
    pub fn insert(&mut self, ch: char)
        requires
            old(self).wf(),
            byte_len(old(self).value@) + char_width(ch) <= isize::MAX,
        ensures
            final(self).wf(),
            final(self)@ == cursor_insert(old(self)@, ch),
    {
        let ghost v = self.value@;
        let ghost k = self.pos();
        proof {
            lemma_boundary_range(v, self.index as int);
            lemma_char_width(ch);
            lemma_insert_lens(v, k, ch);
            lemma_prefix_mono(v, k, v.len() as int);
            lemma_take_all(v);
        }
        string_insert(&mut self.value, self.index, ch);
        self.index = self.index + utf8_width(ch);
        proof {
            lemma_char_index_of_prefix(self.value@, k + 1);
        }
    }

    /// Delete the character before the cursor, if any, and move the cursor
    /// back over it.
    pub fn backspace(&mut self)
        requires
            old(self).wf(),
        ensures
            final(self).wf(),
            final(self)@ == cursor_backspace(old(self)@),
    {
        let ghost v = self.value@;
        let ghost k = self.pos();
        proof {
            lemma_boundary_range(v, self.index as int);
            lemma_take_all(v);
            assert(v.take(0) =~= Seq::<char>::empty());
        }
        if self.index >= self.value.as_str().len() {
            proof {
                lemma_prefix_inj(v, k, v.len() as int);
            }
            string_pop(&mut self.value);
            self.index = self.value.as_str().len();
            proof {
                if v.len() > 0 {
                    assert(v.drop_last() =~= v.remove(k - 1));
                    lemma_remove_lens(v, k - 1);
                }
                lemma_take_all(self.value@);
                lemma_char_index_of_prefix(self.value@, self.value@.len() as int);
            }
        } else {
            let start = floor_char_boundary(self.value.as_str(), self.index.saturating_sub(1));
            proof {
                lemma_char_index_of_prefix(v, 0);
                if k > 0 {
                    lemma_prefix_mono(v, k - 1, k);
                    lemma_char_index_of_prefix(v, k - 1);
                    let m = char_index(v, start as int);
                    lemma_boundary_range(v, start as int);
                    if m >= k {
                        lemma_prefix_mono(v, k, m);
                    }
                    if m < k - 1 {
                        lemma_prefix_mono(v, m, k - 1);
                    }
                    assert(m == k - 1);
                } else {
                    lemma_char_index_of_prefix(v, 0);
                }
            }
            string_drain(&mut self.value, start, self.index);
            self.index = start;
            proof {
                if k > 0 {
                    assert(self.value@ =~= v.remove(k - 1));
                    lemma_remove_lens(v, k - 1);
                    lemma_char_index_of_prefix(self.value@, k - 1);
                } else {
                    assert(self.value@ =~= v);
                }
            }
        }
    }

    /// The byte offset one character after the cursor (the end of the value
    /// when the cursor is already there).
    pub fn next_index(&self) -> (r: usize)
        requires
            self.wf(),
        ensures
            is_boundary(self.value@, r as int),
            char_index(self.value@, r as int) == (if self.pos() < self.value@.len() {
                self.pos() + 1
            } else {
                self.pos()
            }),
            self.index == byte_len(self.value@) ==> r == self.index,
            self.index < byte_len(self.value@) ==> {
                &&& self.index < r
                &&& forall|j: int| self.index < j < r ==> !is_boundary(self.value@, j)
            },
    {
        let ghost v = self.value@;
        let ghost k = self.pos();
        proof {
            lemma_boundary_range(v, self.index as int);
            lemma_take_all(v);
        }
        let r = ceil_char_boundary(self.value.as_str(), self.index + 1);
        proof {
            if k < v.len() {
                lemma_prefix_mono(v, k, k + 1);
                lemma_prefix_mono(v, k + 1, v.len() as int);
                lemma_char_index_of_prefix(v, k + 1);
                let m = char_index(v, r as int);
                lemma_boundary_range(v, r as int);
                if m <= k {
                    lemma_prefix_mono(v, m, k);
                }
                if m > k + 1 {
                    lemma_prefix_mono(v, k + 1, m);
                }
                assert(m == k + 1);
            } else {
                lemma_prefix_inj(v, k, v.len() as int);
                lemma_char_index_of_prefix(v, v.len() as int);
            }
        }
        r
    }

    /// The byte offset one character before the cursor (zero when the cursor
    /// is at the start).
    pub fn prev_index(&self) -> (r: usize)
        requires
            self.wf(),
        ensures
            is_boundary(self.value@, r as int),
            char_index(self.value@, r as int) == (if self.pos() > 0 {
                self.pos() - 1
            } else {
                0
            }),
            self.index == 0 ==> r == 0,
            self.index > 0 ==> {
                &&& r < self.index
                &&& forall|j: int| r < j < self.index ==> !is_boundary(self.value@, j)
            },
    {
        let ghost v = self.value@;
        let ghost k = self.pos();
        proof {
            lemma_boundary_range(v, self.index as int);
            lemma_take_all(v);
            lemma_prefix_mono(v, k, v.len() as int);
            lemma_char_index_of_prefix(v, 0);
            assert(v.take(0) =~= Seq::<char>::empty());
        }
        let r = floor_char_boundary(self.value.as_str(), self.index.saturating_sub(1));
        proof {
            if k > 0 {
                lemma_prefix_mono(v, k - 1, k);
                lemma_char_index_of_prefix(v, k - 1);
                let m = char_index(v, r as int);
                lemma_boundary_range(v, r as int);
                if m >= k {
                    lemma_prefix_mono(v, k, m);
                }
                if m < k - 1 {
                    lemma_prefix_mono(v, m, k - 1);
                }
                assert(m == k - 1);
            }
        }
        r
    }

    /// Delete the character after the cursor, if any; the cursor stays.
    pub fn delete(&mut self)
        requires
            old(self).wf(),
        ensures
            final(self).wf(),
            final(self)@ == cursor_delete(old(self)@),
            final(self).index == old(self).index,
    {
        let ghost v = self.value@;
        let ghost k = self.pos();
        proof {
            lemma_boundary_range(v, self.index as int);
            lemma_take_all(v);
            lemma_prefix_mono(v, k, v.len() as int);
            if k == v.len() {
                lemma_prefix_inj(v, k, v.len() as int);
            }
        }
        if !self.value.as_str().is_empty() && self.index < self.value.as_str().len() {
            assert(k < v.len());
            string_remove(&mut self.value, self.index);
            proof {
                lemma_remove_lens(v, k);
                lemma_char_index_of_prefix(self.value@, k);
            }
        } else {
            proof {
                if k < v.len() {
                    lemma_prefix_mono(v, k, k + 1);
                    lemma_prefix_mono(v, k + 1, v.len() as int);
                }
            }
        }
    }

    /// Move the cursor one character left or right, staying within the value:
    /// left to the greatest character boundary below it, right to the least
    /// one above it.
    pub fn move_cursor(&mut self, position: InputDirection)
        requires
            old(self).wf(),
        ensures
            final(self).wf(),
            final(self)@ == cursor_move(old(self)@, position),
            final(self).value == old(self).value,
            match position {
                InputDirection::Left => if old(self).index == 0 {
                    final(self).index == 0
                } else {
                    &&& final(self).index < old(self).index
                    &&& is_boundary(old(self).value@, final(self).index as int)
                    &&& forall|j: int|
                        j < old(self).index && is_boundary(old(self).value@, j) ==> j <= final(self).index
                },
                InputDirection::Right => if old(self).index == byte_len(old(self).value@) {
                    final(self).index == old(self).index
                } else {
                    &&& old(self).index < final(self).index
                    &&& is_boundary(old(self).value@, final(self).index as int)
                    &&& forall|j: int|
                        old(self).index < j && is_boundary(old(self).value@, j) ==> final(self).index <= j
                },
            },
    {
        proof {
            lemma_boundary_range(self.value@, self.index as int);
        }
        let r = match position {
            InputDirection::Left => self.prev_index(),
            InputDirection::Right => self.next_index(),
        };
        self.index = r;
    }
}

/// Delete removes the character right after the cursor whenever there is one,
/// at the start of the text too: the text before the cursor and the text after
/// that character are kept, and the cursor stays.
pub proof fn law_delete_removes_next_char(c: (Seq<char>, int))
    requires
        cursor_valid(c),
        c.1 < c.0.len(),
    ensures
        cursor_delete(c).0 == c.0.take(c.1) + c.0.skip(c.1 + 1),
        cursor_delete(c).0.len() == c.0.len() - 1,
        cursor_delete(c).1 == c.1,
{
    assert(c.0.remove(c.1) =~= c.0.take(c.1) + c.0.skip(c.1 + 1));
}

/// Inserting a character, moving left over it and deleting gives back the
/// text and cursor from before the insertion.
pub proof fn law_delete_undoes_insert(c: (Seq<char>, int), ch: char)
    requires
        cursor_valid(c),
    ensures
        cursor_delete(cursor_move(cursor_insert(c, ch), InputDirection::Left)) == c,
{
    assert(c.0.insert(c.1, ch).remove(c.1) =~= c.0);
}

/// Deleting with backspace right after inserting a character gives back the
/// text and cursor position from before the insertion.
pub proof fn law_backspace_undoes_insert(c: (Seq<char>, int), ch: char)
    requires
        cursor_valid(c),
    ensures
        cursor_backspace(cursor_insert(c, ch)) == c,
{
    assert(c.0.insert(c.1, ch).remove(c.1) =~= c.0);
}

/// Moving right and then left returns the cursor to where it was, unless it
/// started at the end of the text.
pub proof fn law_right_then_left(c: (Seq<char>, int))
    requires
        cursor_valid(c),
        c.1 < c.0.len(),
    ensures
        cursor_move(cursor_move(c, InputDirection::Right), InputDirection::Left) == c,
{
}

/// Moving left and then right returns the cursor to where it was, unless it
/// started at the beginning of the text.
pub proof fn law_left_then_right(c: (Seq<char>, int))
    requires
        cursor_valid(c),
        c.1 > 0,
    ensures
        cursor_move(cursor_move(c, InputDirection::Left), InputDirection::Right) == c,
{
}

/// Every edit keeps the cursor within the text, and only insertion, deletion
/// and backspace change the text.
pub proof fn law_edits_keep_cursor_in_text(c: (Seq<char>, int), ch: char, dir: InputDirection)
    requires
        cursor_valid(c),
    ensures
        cursor_valid(cursor_insert(c, ch)),
        cursor_valid(cursor_backspace(c)),
        cursor_valid(cursor_delete(c)),
        cursor_valid(cursor_move(c, dir)),
        cursor_move(c, dir).0 == c.0,
{
}

/// The cursor's position is determined by its byte index: every valid cursor
/// state corresponds to exactly one byte index in the text.
pub proof fn law_pos_matches_index(cursor: &StringCursor)
    requires
        cursor.wf(),
    ensures
        cursor_valid(cursor@),
        byte_len(cursor.value@.take(cursor.pos())) == cursor.index,
{
    lemma_boundary_range(cursor.value@, cursor.index as int);
}

} // verus!
