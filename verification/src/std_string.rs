//! The standard library's in-place `String` edits, with what their
//! documentation states about them in terms of the characters of the string.
use crate::utf8_text::{byte_len, char_index, char_width, is_boundary};
use vstd::prelude::*;

verus! {

/// `String::insert`: inserts `ch` at byte offset `idx`. The documentation
/// states that it panics unless `idx` lies on a character boundary; allocation
/// beyond `isize::MAX` bytes is left out as well.
#[verifier::external_body]
pub(crate) fn string_insert(s: &mut String, idx: usize, ch: char)
    requires
        is_boundary(old(s)@, idx as int),
        byte_len(old(s)@) + char_width(ch) <= isize::MAX,
    ensures
        final(s)@ == old(s)@.insert(char_index(old(s)@, idx as int), ch),
{
    s.insert(idx, ch);
}

/// `String::remove`: removes and returns the character that starts at byte
/// offset `idx`. The documentation states that it panics unless `idx` is a
/// character boundary before the end of the string.
#[verifier::external_body]
pub(crate) fn string_remove(s: &mut String, idx: usize) -> (c: char)
    requires
        is_boundary(old(s)@, idx as int),
        idx < byte_len(old(s)@),
    ensures
        c == old(s)@[char_index(old(s)@, idx as int)],
        final(s)@ == old(s)@.remove(char_index(old(s)@, idx as int)),
{
    s.remove(idx)
}

/// `String::pop`: removes and returns the last character, or `None` when the
/// string is empty.
#[verifier::external_body]
pub(crate) fn string_pop(s: &mut String) -> (c: Option<char>)
    ensures
        old(s)@.len() == 0 ==> c is None && final(s)@ == old(s)@,
        old(s)@.len() > 0 ==> c == Some(old(s)@.last()) && final(s)@ == old(s)@.drop_last(),
{
    s.pop()
}

/// `String::drain` on the byte range `start..end`, dropping the drained
/// characters: the range is removed from the string. The documentation states
/// that it panics unless both ends are character boundaries in order.
#[verifier::external_body]
pub(crate) fn string_drain(s: &mut String, start: usize, end: usize)
    requires
        is_boundary(old(s)@, start as int),
        is_boundary(old(s)@, end as int),
        start <= end,
    ensures
        final(s)@ == old(s)@.take(char_index(old(s)@, start as int)) + old(s)@.skip(
            char_index(old(s)@, end as int),
        ),
{
    s.drain(start..end);
}

} // verus!
