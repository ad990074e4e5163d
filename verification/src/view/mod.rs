//! What the views of the prompts show, as text: the ascii view writes one
//! line of text sections, the color view a row of text parts with colors.
use vstd::prelude::*;
use vstd::string::StringExecFns;

pub mod ascii;
pub mod click;
pub mod color;

verus! {

/// `s` written `n` times in a row.
pub open spec fn repeat(s: Seq<char>, n: nat) -> Seq<char>
    decreases n,
{
    if n == 0 {
        Seq::empty()
    } else {
        repeat(s, (n - 1) as nat) + s
    }
}

/// `s` written `n` times in a row.
pub fn repeat_str(s: &str, n: usize) -> (r: String)
    ensures
        r@ == repeat(s@, n as nat),
{
    let mut r = String::new();
    let mut i: usize = 0;
    while i < n
        invariant
            i <= n,
            r@ == repeat(s@, i as nat),
        decreases n - i,
    {
        r.append(s);
        i = i + 1;
    }
    r
}

/// A section of text with the style it is drawn in.
#[derive(Debug, Clone, PartialEq, Eq)]
pub struct TextSection<S> {
    /// The text.
    pub value: String,
    /// The style.
    pub style: S,
}

/// The characters and style of each section.
pub open spec fn section_views<S>(sections: Seq<TextSection<S>>) -> Seq<(Seq<char>, S)> {
    sections.map_values(|t: TextSection<S>| (t.value@, t.style))
}

/// The sections after putting `replacement` at `index`: other sections stay;
/// a section already at `index` keeps its style; any gap is filled with empty
/// sections in the default style, and a new section at `index` takes the
/// default style too.
pub open spec fn sections_with<S>(
    sections: Seq<(Seq<char>, S)>,
    index: int,
    replacement: Seq<char>,
    default_style: S,
) -> Seq<(Seq<char>, S)> {
    Seq::new(
        if index < sections.len() {
            sections.len()
        } else {
            (index + 1) as nat
        },
        |j: int|
            if j == index {
                (
                    replacement,
                    if index < sections.len() {
                        sections[index].1
                    } else {
                        default_style
                    },
                )
            } else if j < sections.len() {
                sections[j]
            } else {
                (Seq::empty(), default_style)
            },
    )
}

/// Replace or insert a text section at a particular index.
pub fn replace_or_insert<S: Copy>(text: &mut Vec<TextSection<S>>, index: usize, replacement: &str, default_style: S)
    requires
        index < usize::MAX,
    ensures
        section_views(final(text)@) == sections_with(
            section_views(old(text)@),
            index as int,
            replacement@,
            default_style,
        ),
{
    let ghost old_text = section_views(text@);
    let len = text.len();
    if len <= index {
        let mut k: usize = len;
        while k < index
            invariant
                len <= k <= index,
                text@.len() == k,
                forall|j: int| 0 <= j < len ==> ((#[trigger] text@[j]).value@, text@[j].style) == old_text[j],
                forall|j: int|
                    len <= j < k ==> (#[trigger] text@[j]).value@ == Seq::<char>::empty() && text@[j].style
                        == default_style,
                old_text.len() == len,
            decreases index - k,
        {
            text.push(TextSection { value: String::new(), style: default_style });
            k = k + 1;
        }
        text.push(TextSection { value: String::from_str(replacement), style: default_style });
    } else {
        let style = text[index].style;
        text.set(index, TextSection { value: String::from_str(replacement), style });
    }
    proof {
        assert(section_views(text@) =~= sections_with(old_text, index as int, replacement@, default_style));
    }
}

/// Replace or insert a text section at a particular index with a repeating
/// string.
pub fn replace_or_insert_rep<S: Copy>(
    text: &mut Vec<TextSection<S>>,
    index: usize,
    replacement: &str,
    repetition: usize,
    default_style: S,
)
    requires
        index < usize::MAX,
    ensures
        section_views(final(text)@) == sections_with(
            section_views(old(text)@),
            index as int,
            repeat(replacement@, repetition as nat),
            default_style,
        ),
{
    let r = repeat_str(replacement, repetition);
    replace_or_insert(text, index, r.as_str(), default_style);
}

/// The parts of a text prompt, in the order they are laid out.
#[derive(Debug, Clone, Copy, PartialEq, Eq, Structural)]
pub enum PromptPart {
    Question,
    Answer,
    PreCursor,
    Cursor,
    PostCursor,
}

/// The part at a position, counting from zero.
pub open spec fn prompt_part_at(v: int) -> Option<PromptPart> {
    if v == 0 {
        Some(PromptPart::Question)
    } else if v == 1 {
        Some(PromptPart::Answer)
    } else if v == 2 {
        Some(PromptPart::PreCursor)
    } else if v == 3 {
        Some(PromptPart::Cursor)
    } else if v == 4 {
        Some(PromptPart::PostCursor)
    } else {
        None
    }
}

impl PromptPart {
    /// The part at position `v`; there are five.
    pub fn from_usize(v: usize) -> (r: Option<Self>)
        ensures
            r == prompt_part_at(v as int),
    {
        match v {
            0 => Some(PromptPart::Question),
            1 => Some(PromptPart::Answer),
            2 => Some(PromptPart::PreCursor),
            3 => Some(PromptPart::Cursor),
            4 => Some(PromptPart::PostCursor),
            _ => None,
        }
    }
}

} // verus!
