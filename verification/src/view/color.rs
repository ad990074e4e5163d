//! The color view: a prompt is a row of texts, each part with its color.
use crate::prompt::checkbox::Checkbox;
use crate::prompt::radio::Radio;
use crate::prompt::{OptionPrompt, Placeholder};
use crate::string_cursor::{law_pos_matches_index, StringCursor};
use crate::utf8_text::{byte_len, lemma_prefix_inj, lemma_prefix_mono, lemma_prefix_step, lemma_take_all};
use crate::view::ascii::shows_placeholder;
use crate::view::{repeat, repeat_str};
use vstd::prelude::*;
use vstd::string::StringExecFns;

verus! {

/// The parts of a color view.
///
/// - Node
///   - Text: Focus
///     - TextSpan: PreQuestion
///     - TextSpan: Question
///     - TextSpan: Answer
///   - Text: PreCursor, Toggle0
///   - Text: Cursor
///   - Text: PostCursor, Toggle1
///   - Text: Feedback
#[derive(Debug, Clone, Copy, PartialEq, Eq, Structural)]
pub enum ViewPart {
    Focus,
    PreQuestion,
    Question,
    Answer,
    PreCursor,
    Toggle0,
    Cursor,
    Toggle1,
    PostCursor,
    Feedback,
}

/// Where a part's text is: the child of the view and the section of that
/// child's text.
pub open spec fn text_slot(part: ViewPart) -> (usize, usize) {
    match part {
        ViewPart::Focus => (0, 0),
        ViewPart::PreQuestion => (0, 1),
        ViewPart::Question => (0, 2),
        ViewPart::Answer => (0, 3),
        ViewPart::PreCursor | ViewPart::Toggle0 => (1, 0),
        ViewPart::Cursor => (2, 0),
        ViewPart::PostCursor | ViewPart::Toggle1 => (3, 0),
        ViewPart::Feedback => (4, 0),
    }
}

/// Which entity draws a part: a child of the view, or a span under that
/// child.
pub open spec fn entity_slot(part: ViewPart) -> (usize, Option<usize>) {
    match part {
        ViewPart::Focus => (0, None),
        ViewPart::PreQuestion => (0, Some(0)),
        ViewPart::Question => (0, Some(1)),
        ViewPart::Answer => (0, Some(2)),
        ViewPart::PreCursor | ViewPart::Toggle0 => (1, None),
        ViewPart::Cursor => (2, None),
        ViewPart::PostCursor | ViewPart::Toggle1 => (3, None),
        ViewPart::Feedback => (4, None),
    }
}

impl ViewPart {
    /// The child of the view and the section of its text that hold this part.
    pub fn text_slot(self) -> (r: (usize, usize))
        ensures
            r == text_slot(self),
    {
        match self {
            ViewPart::Focus => (0, 0),
            ViewPart::PreQuestion => (0, 1),
            ViewPart::Question => (0, 2),
            ViewPart::Answer => (0, 3),
            ViewPart::PreCursor | ViewPart::Toggle0 => (1, 0),
            ViewPart::Cursor => (2, 0),
            ViewPart::PostCursor | ViewPart::Toggle1 => (3, 0),
            ViewPart::Feedback => (4, 0),
        }
    }

    /// The child of the view, and the span under it, that draw this part.
    pub fn entity_slot(self) -> (r: (usize, Option<usize>))
        ensures
            r == entity_slot(self),
    {
        match self {
            ViewPart::Focus => (0, None),
            ViewPart::PreQuestion => (0, Some(0)),
            ViewPart::Question => (0, Some(1)),
            ViewPart::Answer => (0, Some(2)),
            ViewPart::PreCursor | ViewPart::Toggle0 => (1, None),
            ViewPart::Cursor => (2, None),
            ViewPart::PostCursor | ViewPart::Toggle1 => (3, None),
            ViewPart::Feedback => (4, None),
        }
    }
}

/// The colors of the palette.
#[derive(Debug, Clone, Copy, PartialEq, Eq, Structural)]
pub enum PaletteColor {
    /// Text color
    TextColor,
    /// Highlight color
    Highlight,
    /// Complete color
    Complete,
    /// Answered color
    Answer,
    /// Lowlight color
    Lowlight,
}

/// The marker in front of the focused prompt.
pub fn focus_view(focused: bool) -> (r: &'static str)
    ensures
        r@ == (if focused {
            "> "@
        } else {
            "  "@
        }),
{
    if focused {
        "> "
    } else {
        "  "
    }
}

/// The color of a marker: highlighted while its prompt has the focus.
pub open spec fn marker_color(focused: bool) -> PaletteColor {
    if focused {
        PaletteColor::Highlight
    } else {
        PaletteColor::TextColor
    }
}

/// The box in front of a checkbox, and its color.
pub fn checkbox_view(checkbox: &Checkbox, focused: bool) -> (r: (&'static str, PaletteColor))
    ensures
        r.0@ == (if checkbox.checked {
            "[x] "@
        } else {
            "[ ] "@
        }),
        r.1 == marker_color(focused),
{
    let color = if focused {
        PaletteColor::Highlight
    } else {
        PaletteColor::TextColor
    };
    if checkbox.checked {
        ("[x] ", color)
    } else {
        ("[ ] ", color)
    }
}

/// The circle in front of a radio button, and its color.
pub fn radio_view(radio: &Radio, focused: bool) -> (r: (&'static str, PaletteColor))
    ensures
        r.0@ == (if radio.checked {
            "(x) "@
        } else {
            "( ) "@
        }),
        r.1 == marker_color(focused),
{
    let color = if focused {
        PaletteColor::Highlight
    } else {
        PaletteColor::TextColor
    };
    if radio.checked {
        ("(x) ", color)
    } else {
        ("( ) ", color)
    }
}

/// The two options of a confirmation or toggle, each with its background:
/// highlighted when selected, lowlighted otherwise.
pub fn option_view<C: OptionPrompt>(prompt: &C) -> (r: (String, PaletteColor, String, PaletteColor))
    ensures
        r.0@ == prompt.option_name(0),
        r.1 == (if prompt.selected() == 0 {
            PaletteColor::Highlight
        } else {
            PaletteColor::Lowlight
        }),
        r.2@ == prompt.option_name(1),
        r.3 == (if prompt.selected() == 1 {
            PaletteColor::Highlight
        } else {
            PaletteColor::Lowlight
        }),
{
    let state = prompt.state();
    let first = String::from_str(prompt.name(0));
    let second = String::from_str(prompt.name(1));
    (
        first,
        if state == 0 {
            PaletteColor::Highlight
        } else {
            PaletteColor::Lowlight
        },
        second,
        if state == 1 {
            PaletteColor::Highlight
        } else {
            PaletteColor::Lowlight
        },
    )
}

/// The text of a prompt split at its cursor, and the color of what follows
/// the cursor.
#[derive(Debug, Clone, PartialEq, Eq)]
pub struct CursorText {
    /// Before the cursor
    pub pre: String,
    /// Under the cursor
    pub cursor: String,
    /// After the cursor
    pub post: String,
    /// The color of what follows the cursor
    pub post_color: PaletteColor,
}

/// The number of placeholder characters shown under the cursor.
pub open spec fn placeholder_head(p: Seq<char>) -> int {
    if p.len() > 0 {
        1
    } else {
        0
    }
}

/// What is shown under the cursor: the first character of the placeholder
/// while it is shown, a blank at the end of the value, and otherwise the
/// character after the cursor.
pub open spec fn under_cursor(c: (Seq<char>, int), placeholder: Option<Seq<char>>) -> Seq<char> {
    if c.0.len() == 0 && placeholder is Some {
        placeholder->0.take(placeholder_head(placeholder->0))
    } else if c.1 >= c.0.len() {
        " "@
    } else {
        c.0.subrange(c.1, c.1 + 1)
    }
}

/// What is shown after the cursor: the rest of the placeholder while it is
/// shown, and otherwise the value after the character under the cursor.
pub open spec fn after_cursor(c: (Seq<char>, int), placeholder: Option<Seq<char>>) -> Seq<char> {
    if c.0.len() == 0 && placeholder is Some {
        placeholder->0.skip(placeholder_head(placeholder->0))
    } else if c.1 >= c.0.len() {
        Seq::empty()
    } else {
        c.0.skip(c.1 + 1)
    }
}

/// The placeholder's text, if there is one.
pub open spec fn placeholder_text(placeholder: Option<&Placeholder>) -> Option<Seq<char>> {
    match placeholder {
        Some(p) => Some(p.0@),
        None => None,
    }
}

/// The number of characters before the cursor.
fn cursor_pos(cursor: &StringCursor) -> (k: usize)
    requires
        cursor.wf(),
    ensures
        k == cursor.pos(),
{
    let ghost v = cursor.value@;
    proof {
        law_pos_matches_index(cursor);
        lemma_prefix_mono(v, 0, cursor.pos());
        lemma_prefix_mono(v, 0, v.len() as int);
        lemma_take_all(v);
        assert(v.take(0) =~= Seq::<char>::empty());
    }
    let s = cursor.value.as_str();
    let mut k: usize = 0;
    let mut b: usize = 0;
    while b < cursor.index
        invariant
            s@ == v,
            cursor.wf(),
            0 <= cursor.pos() <= v.len(),
            byte_len(v.take(cursor.pos())) == cursor.index,
            0 <= k <= cursor.pos(),
            b == byte_len(v.take(k as int)),
            b <= cursor.index,
            v.len() <= byte_len(v) <= isize::MAX,
        decreases cursor.index - b,
    {
        proof {
            if k == cursor.pos() {
                assert(false);
            }
            lemma_prefix_step(v, k as int);
            lemma_prefix_mono(v, k as int + 1, cursor.pos());
        }
        let c = s.get_char(k);
        b = b + crate::string_cursor::utf8_width(c);
        k = k + 1;
        proof {
            lemma_prefix_mono(v, k as int, cursor.pos());
        }
    }
    proof {
        lemma_prefix_inj(v, k as int, cursor.pos());
    }
    k
}

/// The text of a text prompt split at its cursor; the placeholder shows in
/// low light while the value is empty.
pub fn text_view(cursor: &StringCursor, placeholder: Option<&Placeholder>) -> (r: CursorText)
    requires
        cursor.wf(),
    ensures
        r.pre@ == cursor.value@.take(cursor.pos()),
        r.cursor@ == under_cursor(cursor@, placeholder_text(placeholder)),
        r.post@ == after_cursor(cursor@, placeholder_text(placeholder)),
        r.post_color == (if shows_placeholder(cursor.value@, placeholder is Some) {
            PaletteColor::Lowlight
        } else {
            PaletteColor::TextColor
        }),
{
    let s = cursor.value.as_str();
    let n = s.unicode_len();
    let k = cursor_pos(cursor);
    proof {
        law_pos_matches_index(cursor);
    }
    let pre = String::from_str(s.substring_char(0, k));
    match placeholder {
        Some(p) if n == 0 => {
            let ps = p.0.as_str();
            let pn = ps.unicode_len();
            let head: usize = if pn > 0 {
                1
            } else {
                0
            };
            let under = String::from_str(ps.substring_char(0, head));
            let rest = String::from_str(ps.substring_char(head, pn));
            proof {
                assert(ps@.subrange(0, head as int) =~= ps@.take(head as int));
                assert(ps@.subrange(head as int, pn as int) =~= ps@.skip(head as int));
            }
            CursorText { pre, cursor: under, post: rest, post_color: PaletteColor::Lowlight }
        },
        _ => {
            if k >= n {
                CursorText {
                    pre,
                    cursor: String::from_str(" "),
                    post: String::new(),
                    post_color: PaletteColor::TextColor,
                }
            } else {
                let under = String::from_str(s.substring_char(k, k + 1));
                let rest = String::from_str(s.substring_char(k + 1, n));
                proof {
                    assert(s@.subrange(k + 1, n as int) =~= s@.skip(k + 1));
                }
                CursorText { pre, cursor: under, post: rest, post_color: PaletteColor::TextColor }
            }
        },
    }
}

/// A text view shows the value whole: what comes before the cursor, the
/// character under it (unless the cursor is at the end, where a blank
/// stands) and what follows make up the value; while the placeholder shows,
/// what is under and after the cursor make up the placeholder.
pub proof fn law_text_view_shows_value(c: (Seq<char>, int), placeholder: Option<Seq<char>>)
    requires
        0 <= c.1 <= c.0.len(),
    ensures
        !(c.0.len() == 0 && placeholder is Some) ==> c.0.take(c.1) + (if c.1 < c.0.len() {
            under_cursor(c, placeholder)
        } else {
            Seq::empty()
        }) + after_cursor(c, placeholder) == c.0,
        c.0.len() == 0 && placeholder is Some ==> under_cursor(c, placeholder) + after_cursor(
            c,
            placeholder,
        ) == placeholder->0,
{
    if !(c.0.len() == 0 && placeholder is Some) {
        if c.1 < c.0.len() {
            assert(c.0.take(c.1) + c.0.subrange(c.1, c.1 + 1) + c.0.skip(c.1 + 1) =~= c.0);
        } else {
            assert(c.0.take(c.1) + Seq::<char>::empty() + Seq::<char>::empty() =~= c.0);
        }
    } else {
        let p = placeholder->0;
        assert(p.take(placeholder_head(p)) + p.skip(placeholder_head(p)) =~= p);
    }
}

/// The text of a password prompt split at its cursor, with a star for each
/// byte of the value; the placeholder shows in low light while the value is
/// empty.
pub fn opaque_view(cursor: &StringCursor, placeholder: Option<&Placeholder>) -> (r: CursorText)
    requires
        cursor.wf(),
    ensures
        r.pre@ == repeat("*"@, cursor.index as nat),
        r.cursor@ == (if shows_placeholder(cursor.value@, placeholder is Some) {
            under_cursor(cursor@, placeholder_text(placeholder))
        } else if cursor.index >= byte_len(cursor.value@) {
            " "@
        } else {
            "*"@
        }),
        r.post@ == (if shows_placeholder(cursor.value@, placeholder is Some) {
            after_cursor(cursor@, placeholder_text(placeholder))
        } else if cursor.index + 1 >= byte_len(cursor.value@) {
            Seq::empty()
        } else {
            repeat("*"@, (byte_len(cursor.value@) - cursor.index - 1) as nat)
        }),
        r.post_color == (if shows_placeholder(cursor.value@, placeholder is Some) {
            PaletteColor::Lowlight
        } else {
            PaletteColor::TextColor
        }),
{
    let glyph = "*";
    let s = cursor.value.as_str();
    let len = s.len();
    proof {
        law_pos_matches_index(cursor);
        lemma_prefix_mono(cursor.value@, cursor.pos(), cursor.value@.len() as int);
        lemma_take_all(cursor.value@);
    }
    let pre = repeat_str(glyph, cursor.index);
    match placeholder {
        Some(p) if s.is_empty() => {
            let ps = p.0.as_str();
            let pn = ps.unicode_len();
            let head: usize = if pn > 0 {
                1
            } else {
                0
            };
            let under = String::from_str(ps.substring_char(0, head));
            let rest = String::from_str(ps.substring_char(head, pn));
            proof {
                assert(ps@.subrange(0, head as int) =~= ps@.take(head as int));
                assert(ps@.subrange(head as int, pn as int) =~= ps@.skip(head as int));
            }
            CursorText { pre, cursor: under, post: rest, post_color: PaletteColor::Lowlight }
        },
        _ => {
            let under = if cursor.index >= len {
                String::from_str(" ")
            } else {
                repeat_str(glyph, 1)
            };
            proof {
                assert(repeat("*"@, 1) =~= "*"@) by {
                    assert(repeat("*"@, 0) =~= Seq::<char>::empty());
                }
            }
            let rest_len: usize = if cursor.index + 1 >= len {
                0
            } else {
                len - cursor.index - 1
            };
            let post = repeat_str(glyph, rest_len);
            CursorText { pre, cursor: under, post, post_color: PaletteColor::TextColor }
        },
    }
}

/// Where the child for a part is found, or how many children to add first.
#[derive(Debug, Clone, Copy, PartialEq, Eq, Structural)]
pub enum ChildSlot {
    /// The child at this position already exists.
    Existing(usize),
    /// Add this many empty children, then the child for the part.
    Spawn(usize),
}

/// Find the child at `index` of a view whose children number `children`
/// (none when it has no children yet), or how many empty children to add
/// before adding it.
pub fn child_slot(children: Option<usize>, index: usize) -> (r: ChildSlot)
    ensures
        r == (match children {
            Some(n) => if index < n {
                ChildSlot::Existing(index)
            } else {
                ChildSlot::Spawn((index - n) as usize)
            },
            None => ChildSlot::Spawn(index),
        }),
{
    match children {
        Some(n) => {
            if index < n {
                ChildSlot::Existing(index)
            } else {
                ChildSlot::Spawn(index - n)
            }
        },
        None => ChildSlot::Spawn(index),
    }
}

/// The blink counter after one more tick: it counts up and starts over at
/// zero when it would overflow.
pub fn blink_step(count: u8) -> (r: u8)
    ensures
        r == (if count < u8::MAX {
            (count + 1) as u8
        } else {
            0
        }),
{
    match count.checked_add(1) {
        Some(c) => c,
        None => 0,
    }
}

/// The cursor is drawn on even counts of the blink counter.
pub fn cursor_shown(count: u8) -> (r: bool)
    ensures
        r == (count % 2 == 0),
{
    count % 2 == 0
}

} // verus!
