//! Number prompts: only characters that can belong to a number are typed, and
//! Enter parses the text as a number of the prompt's type.
use crate::keys::{ButtonState, Key, KeyboardInput};
use crate::prompt::text::event_bytes;
use crate::prompt::{Feedback, FeedbackKind};
use crate::Error;
use vstd::string::StringExecFns;
use crate::string_cursor::{
    cursor_backspace, cursor_delete, cursor_insert, cursor_move, cursor_valid, law_pos_matches_index,
    InputDirection, StringCursor,
};
use crate::utf8_text::{
    byte_len, char_width, lemma_insert_lens, lemma_prefix_mono, lemma_prefix_step, lemma_remove_lens,
    lemma_take_all,
};
use vstd::arithmetic::power::pow;
use vstd::prelude::*;

verus! {

/// A decimal digit.
pub open spec fn is_digit(c: char) -> bool {
    '0' <= c && c <= '9'
}

/// Every character is a decimal digit.
pub open spec fn all_digits(d: Seq<char>) -> bool {
    forall|i: int| 0 <= i < d.len() ==> is_digit(#[trigger] d[i])
}

/// The value of a string of decimal digits, most significant first.
pub open spec fn digits_value(d: Seq<char>) -> int
    decreases d.len(),
{
    if d.len() == 0 {
        0
    } else {
        digits_value(d.drop_last()) * 10 + (d.last() as int - '0' as int)
    }
}

/// The integer written in `s`: an optional `+` sign (or `-` sign, when
/// `signed`) followed by one or more decimal digits, and nothing else.
pub open spec fn decimal_value(s: Seq<char>, signed: bool) -> Option<int> {
    let has_sign = s.len() > 0 && (s[0] == '+' || (s[0] == '-' && signed));
    let d = if has_sign {
        s.drop_first()
    } else {
        s
    };
    if d.len() > 0 && all_digits(d) {
        Some(
            if has_sign && s[0] == '-' {
                -digits_value(d)
            } else {
                digits_value(d)
            },
        )
    } else {
        None
    }
}

/// The integer written in `s` when it lies in `lowest..=highest`.
pub open spec fn parsed_in_range(s: Seq<char>, signed: bool, lowest: int, highest: int) -> Option<int> {
    match decimal_value(s, signed) {
        Some(v) => if lowest <= v <= highest {
            Some(v)
        } else {
            None
        },
        None => None,
    }
}

proof fn lemma_digits_value_prefix(d: Seq<char>, k: int)
    requires
        0 <= k <= d.len(),
        all_digits(d),
    ensures
        0 <= digits_value(d.take(k)) <= digits_value(d),
    decreases d.len() - k,
{
    if k < d.len() {
        lemma_digits_value_prefix(d, k + 1);
        assert(d.take(k + 1).drop_last() =~= d.take(k));
        assert(is_digit(d[k]));
    } else {
        assert(d.take(k) =~= d);
        lemma_digits_value_nonneg(d);
    }
}

proof fn lemma_digits_value_nonneg(d: Seq<char>)
    requires
        all_digits(d),
    ensures
        0 <= digits_value(d),
    decreases d.len(),
{
    if d.len() > 0 {
        assert(all_digits(d.drop_last())) by {
            assert forall|i: int| 0 <= i < d.drop_last().len() implies is_digit(
                #[trigger] d.drop_last()[i],
            ) by {
                assert(d.drop_last()[i] == d[i]);
            }
        }
        lemma_digits_value_nonneg(d.drop_last());
        assert(is_digit(d[d.len() - 1]));
    }
}

/// Parse `s` the way the standard library parses an integer of a type whose
/// values are `lowest..=highest`: an optional `+` (or `-` for a signed type)
/// and decimal digits; `None` when that fails or the value is out of range.
pub fn parse_decimal(s: &str, signed: bool, lowest: i128, highest: i128) -> (r: Option<i128>)
    requires
        -0x1_0000_0000_0000_0000 <= lowest <= 0 <= highest <= 0x1_0000_0000_0000_0000,
    ensures
        r matches Some(v) ==> parsed_in_range(s@, signed, lowest as int, highest as int) == Some(
            v as int,
        ),
        r is None ==> parsed_in_range(s@, signed, lowest as int, highest as int) is None,
{
    let ghost t = s@;
    let n = s.unicode_len();
    if n == 0 {
        return None;
    }
    let first = s.get_char(0);
    let mut neg = false;
    let mut start: usize = 0;
    if first == '+' {
        start = 1;
    } else if first == '-' && signed {
        neg = true;
        start = 1;
    }
    let ghost d = if start == 1 {
        t.drop_first()
    } else {
        t
    };
    proof {
        assert((t.len() > 0 && (t[0] == '+' || (t[0] == '-' && signed))) == (start == 1));
        assert(neg == (start == 1 && t[0] == '-'));
    }
    if start == n {
        return None;
    }
    let limit: i128 = if neg {
        -lowest
    } else {
        highest
    };
    let mut acc: i128 = 0;
    let mut i: usize = start;
    proof {
        assert(d.take(0) =~= Seq::<char>::empty());
    }
    while i < n
        invariant
            n == t.len(),
            t == s@,
            d.len() == n - start,
            forall|j: int| 0 <= j < d.len() ==> d[j] == t[j + start],
            d == (if start == 1 {
                t.drop_first()
            } else {
                t
            }),
            (t.len() > 0 && (t[0] == '+' || (t[0] == '-' && signed))) == (start == 1),
            start == 0 || start == 1,
            neg == (start == 1 && t[0] == '-'),
            limit == (if neg {
                -lowest
            } else {
                highest as int
            }),
            -0x1_0000_0000_0000_0000 <= lowest <= 0 <= highest <= 0x1_0000_0000_0000_0000,
            start <= i <= n,
            0 <= limit <= 0x1_0000_0000_0000_0000,
            all_digits(d.take(i - start)),
            acc == digits_value(d.take(i - start)),
            0 <= acc <= limit,
        decreases n - i,
    {
        let c = s.get_char(i);
        let k: Ghost<int> = Ghost(i - start);
        proof {
            assert(d[k@] == c);
        }
        if !('0' <= c && c <= '9') {
            proof {
                assert(!is_digit(d[k@]));
                assert(!all_digits(d));
                assert(decimal_value(t, signed) is None);
            }
            return None;
        }
        let digit = (c as u32 - '0' as u32) as i128;
        acc = acc * 10 + digit;
        proof {
            assert(d.take(k@ + 1).drop_last() =~= d.take(k@));
            assert(all_digits(d.take(k@ + 1))) by {
                assert forall|j: int| 0 <= j < k@ + 1 implies is_digit(#[trigger] d.take(k@ + 1)[j]) by {
                    if j < k@ {
                        assert(d.take(k@ + 1)[j] == d.take(k@)[j]);
                    }
                }
            }
        }
        if acc > limit {
            proof {
                if all_digits(d) {
                    lemma_digits_value_prefix(d, k@ + 1);
                    assert(digits_value(d) > limit);
                }
            }
            return None;
        }
        i = i + 1;
    }
    proof {
        assert(d.take(d.len() as int) =~= d);
    }
    Some(
        if neg {
            -acc
        } else {
            acc
        },
    )
}


/// Integer types that a number prompt can read.
pub trait NumLike: Sized + Copy {
    /// Values of the type can be negative.
    spec fn signed() -> bool;

    /// The least value of the type.
    spec fn lowest() -> int;

    /// The greatest value of the type.
    spec fn highest() -> int;

    /// The value as an integer.
    spec fn value(self) -> int;

    /// The short name of the type.
    spec fn short_name() -> Seq<char>;

    /// Can values of the type be negative?
    fn is_signed() -> (b: bool)
        ensures
            b == Self::signed(),
    ;

    /// The short name of the type, as feedback names it.
    fn name() -> (r: &'static str)
        ensures
            r@ == Self::short_name(),
    ;

    /// Parse a value of the type from its decimal text.
    fn parse(s: &str) -> (r: Option<Self>)
        ensures
            r matches Some(v) ==> parsed_in_range(s@, Self::signed(), Self::lowest(), Self::highest())
                == Some(v.value()),
            r is None ==> parsed_in_range(s@, Self::signed(), Self::lowest(), Self::highest()) is None,
    ;
}

impl NumLike for i8 {
    open spec fn short_name() -> Seq<char> {
        "i8"@
    }

    fn name() -> (r: &'static str) {
        "i8"
    }

    open spec fn signed() -> bool {
        true
    }

    open spec fn lowest() -> int {
        i8::MIN as int
    }

    open spec fn highest() -> int {
        i8::MAX as int
    }

    open spec fn value(self) -> int {
        self as int
    }

    fn is_signed() -> (b: bool) {
        true
    }

    fn parse(s: &str) -> (r: Option<i8>) {
        match parse_decimal(s, true, i8::MIN as i128, i8::MAX as i128) {
            Some(v) => Some(v as i8),
            None => None,
        }
    }
}

impl NumLike for i16 {
    open spec fn short_name() -> Seq<char> {
        "i16"@
    }

    fn name() -> (r: &'static str) {
        "i16"
    }

    open spec fn signed() -> bool {
        true
    }

    open spec fn lowest() -> int {
        i16::MIN as int
    }

    open spec fn highest() -> int {
        i16::MAX as int
    }

    open spec fn value(self) -> int {
        self as int
    }

    fn is_signed() -> (b: bool) {
        true
    }

    fn parse(s: &str) -> (r: Option<i16>) {
        match parse_decimal(s, true, i16::MIN as i128, i16::MAX as i128) {
            Some(v) => Some(v as i16),
            None => None,
        }
    }
}

impl NumLike for i32 {
    open spec fn short_name() -> Seq<char> {
        "i32"@
    }

    fn name() -> (r: &'static str) {
        "i32"
    }

    open spec fn signed() -> bool {
        true
    }

    open spec fn lowest() -> int {
        i32::MIN as int
    }

    open spec fn highest() -> int {
        i32::MAX as int
    }

    open spec fn value(self) -> int {
        self as int
    }

    fn is_signed() -> (b: bool) {
        true
    }

    fn parse(s: &str) -> (r: Option<i32>) {
        match parse_decimal(s, true, i32::MIN as i128, i32::MAX as i128) {
            Some(v) => Some(v as i32),
            None => None,
        }
    }
}

impl NumLike for i64 {
    open spec fn short_name() -> Seq<char> {
        "i64"@
    }

    fn name() -> (r: &'static str) {
        "i64"
    }

    open spec fn signed() -> bool {
        true
    }

    open spec fn lowest() -> int {
        i64::MIN as int
    }

    open spec fn highest() -> int {
        i64::MAX as int
    }

    open spec fn value(self) -> int {
        self as int
    }

    fn is_signed() -> (b: bool) {
        true
    }

    fn parse(s: &str) -> (r: Option<i64>) {
        match parse_decimal(s, true, i64::MIN as i128, i64::MAX as i128) {
            Some(v) => Some(v as i64),
            None => None,
        }
    }
}

impl NumLike for isize {
    open spec fn short_name() -> Seq<char> {
        "isize"@
    }

    fn name() -> (r: &'static str) {
        "isize"
    }

    open spec fn signed() -> bool {
        true
    }

    open spec fn lowest() -> int {
        isize::MIN as int
    }

    open spec fn highest() -> int {
        isize::MAX as int
    }

    open spec fn value(self) -> int {
        self as int
    }

    fn is_signed() -> (b: bool) {
        true
    }

    fn parse(s: &str) -> (r: Option<isize>) {
        match parse_decimal(s, true, isize::MIN as i128, isize::MAX as i128) {
            Some(v) => Some(v as isize),
            None => None,
        }
    }
}

impl NumLike for u8 {
    open spec fn short_name() -> Seq<char> {
        "u8"@
    }

    fn name() -> (r: &'static str) {
        "u8"
    }

    open spec fn signed() -> bool {
        false
    }

    open spec fn lowest() -> int {
        0
    }

    open spec fn highest() -> int {
        u8::MAX as int
    }

    open spec fn value(self) -> int {
        self as int
    }

    fn is_signed() -> (b: bool) {
        false
    }

    fn parse(s: &str) -> (r: Option<u8>) {
        match parse_decimal(s, false, 0, u8::MAX as i128) {
            Some(v) => Some(v as u8),
            None => None,
        }
    }
}

impl NumLike for u16 {
    open spec fn short_name() -> Seq<char> {
        "u16"@
    }

    fn name() -> (r: &'static str) {
        "u16"
    }

    open spec fn signed() -> bool {
        false
    }

    open spec fn lowest() -> int {
        0
    }

    open spec fn highest() -> int {
        u16::MAX as int
    }

    open spec fn value(self) -> int {
        self as int
    }

    fn is_signed() -> (b: bool) {
        false
    }

    fn parse(s: &str) -> (r: Option<u16>) {
        match parse_decimal(s, false, 0, u16::MAX as i128) {
            Some(v) => Some(v as u16),
            None => None,
        }
    }
}

impl NumLike for u32 {
    open spec fn short_name() -> Seq<char> {
        "u32"@
    }

    fn name() -> (r: &'static str) {
        "u32"
    }

    open spec fn signed() -> bool {
        false
    }

    open spec fn lowest() -> int {
        0
    }

    open spec fn highest() -> int {
        u32::MAX as int
    }

    open spec fn value(self) -> int {
        self as int
    }

    fn is_signed() -> (b: bool) {
        false
    }

    fn parse(s: &str) -> (r: Option<u32>) {
        match parse_decimal(s, false, 0, u32::MAX as i128) {
            Some(v) => Some(v as u32),
            None => None,
        }
    }
}

impl NumLike for u64 {
    open spec fn short_name() -> Seq<char> {
        "u64"@
    }

    fn name() -> (r: &'static str) {
        "u64"
    }

    open spec fn signed() -> bool {
        false
    }

    open spec fn lowest() -> int {
        0
    }

    open spec fn highest() -> int {
        u64::MAX as int
    }

    open spec fn value(self) -> int {
        self as int
    }

    fn is_signed() -> (b: bool) {
        false
    }

    fn parse(s: &str) -> (r: Option<u64>) {
        match parse_decimal(s, false, 0, u64::MAX as i128) {
            Some(v) => Some(v as u64),
            None => None,
        }
    }
}

impl NumLike for usize {
    open spec fn short_name() -> Seq<char> {
        "usize"@
    }

    fn name() -> (r: &'static str) {
        "usize"
    }

    open spec fn signed() -> bool {
        false
    }

    open spec fn lowest() -> int {
        0
    }

    open spec fn highest() -> int {
        usize::MAX as int
    }

    open spec fn value(self) -> int {
        self as int
    }

    fn is_signed() -> (b: bool) {
        false
    }

    fn parse(s: &str) -> (r: Option<usize>) {
        match parse_decimal(s, false, 0, usize::MAX as i128) {
            Some(v) => Some(v as usize),
            None => None,
        }
    }
}

/// A character may be typed into a number: a sign at the start for a signed
/// type, one decimal point for a floating-point type, or a digit.
pub open spec fn number_char_ok(signed: bool, float: bool, c: char, cur: (Seq<char>, int)) -> bool {
    if c == '-' || c == '+' {
        signed && cur.1 == 0
    } else if c == '.' {
        float && !cur.0.contains('.')
    } else {
        is_digit(c)
    }
}

/// Typing the characters of `t` into a number, skipping those that may not
/// be typed where they would go.
pub open spec fn type_number(c: (Seq<char>, int), t: Seq<char>, signed: bool, float: bool) -> (Seq<char>, int)
    decreases t.len(),
{
    if t.len() == 0 {
        c
    } else {
        let before = type_number(c, t.drop_last(), signed, float);
        if number_char_ok(signed, float, t.last(), before) {
            cursor_insert(before, t.last())
        } else {
            before
        }
    }
}

/// The text and cursor of a number prompt after one key event; only pressed
/// keys count.
pub open spec fn number_edit(c: (Seq<char>, int), ev: KeyboardInput, signed: bool, float: bool) -> (Seq<char>, int) {
    if ev.state == ButtonState::Pressed {
        match ev.logical_key {
            Key::Character(s) => type_number(c, s@, signed, float),
            Key::Space => cursor_insert(c, ' '),
            Key::Backspace => cursor_backspace(c),
            Key::Delete => cursor_delete(c),
            Key::ArrowLeft => cursor_move(c, InputDirection::Left),
            Key::ArrowRight => cursor_move(c, InputDirection::Right),
            _ => c,
        }
    } else {
        c
    }
}

/// Does the text hold a decimal point?
fn has_point(s: &str) -> (r: bool)
    ensures
        r == s@.contains('.'),
{
    let n = s.unicode_len();
    let mut i: usize = 0;
    while i < n
        invariant
            n == s@.len(),
            i <= n,
            forall|j: int| 0 <= j < i ==> s@[j] != '.',
        decreases n - i,
    {
        if s.get_char(i) == '.' {
            return true;
        }
        i = i + 1;
    }
    false
}

/// May `c` be typed at the cursor of a number prompt?
pub fn is_valid(signed: bool, float: bool, c: char, cursor: &StringCursor) -> (r: bool)
    requires
        cursor.wf(),
    ensures
        r == number_char_ok(signed, float, c, cursor@),
{
    proof {
        law_pos_matches_index(cursor);
        lemma_prefix_mono(cursor.value@, 0, cursor.pos());
        assert(cursor.value@.take(0) =~= Seq::<char>::empty());
    }
    if c == '-' || c == '+' {
        signed && cursor.index == 0
    } else if c == '.' {
        float && !has_point(cursor.value.as_str())
    } else {
        '0' <= c && c <= '9'
    }
}

/// Type the characters of `s` that may go into a number.
fn type_number_text(cursor: &mut StringCursor, s: &str, signed: bool, float: bool)
    requires
        old(cursor).wf(),
        byte_len(old(cursor).value@) + byte_len(s@) <= isize::MAX,
    ensures
        final(cursor).wf(),
        final(cursor)@ == type_number(old(cursor)@, s@, signed, float),
        byte_len(final(cursor).value@) <= byte_len(old(cursor).value@) + byte_len(s@),
{
    let ghost c0 = cursor@;
    let ghost t = s@;
    proof {
        assert(t.take(0) =~= Seq::<char>::empty());
    }
    let n = s.unicode_len();
    let mut i: usize = 0;
    while i < n
        invariant
            n == t.len(),
            t == s@,
            0 <= i <= n,
            cursor.wf(),
            cursor@ == type_number(c0, t.take(i as int), signed, float),
            byte_len(cursor.value@) <= byte_len(c0.0) + byte_len(t.take(i as int)),
            byte_len(c0.0) + byte_len(t) <= isize::MAX,
        decreases n - i,
    {
        let ch = s.get_char(i);
        proof {
            lemma_prefix_step(t, i as int);
            lemma_prefix_mono(t, i as int + 1, t.len() as int);
            lemma_take_all(t);
            law_pos_matches_index(cursor);
            assert(t.take(i + 1).drop_last() =~= t.take(i as int));
            assert(t.take(i + 1).last() == ch);
        }
        if is_valid(signed, float, ch, cursor) {
            proof {
                lemma_insert_lens(cursor.value@, cursor.pos(), ch);
            }
            cursor.insert(ch);
        }
        i = i + 1;
    }
    proof {
        assert(t.take(n as int) =~= t);
    }
}

/// What a key event asks of a number prompt, besides editing its text.
#[derive(Debug, Clone, Copy, PartialEq, Eq, Structural)]
pub enum NumberKey {
    /// Only the text changes, if anything.
    Edit,
    /// Enter: submit the number.
    Enter,
    /// Escape: cancel.
    Escape,
}

/// What one key event asks of a number prompt.
pub open spec fn number_key_kind(ev: KeyboardInput) -> NumberKey {
    if ev.state == ButtonState::Pressed {
        match ev.logical_key {
            Key::Enter => NumberKey::Enter,
            Key::Escape => NumberKey::Escape,
            _ => NumberKey::Edit,
        }
    } else {
        NumberKey::Edit
    }
}

/// Apply one key event to the text of a number prompt: characters that may
/// not go into a number are dropped. Reports Enter and Escape.
pub fn number_key_edit(cursor: &mut StringCursor, signed: bool, float: bool, ev: &KeyboardInput) -> (r: NumberKey)
    requires
        old(cursor).wf(),
        byte_len(old(cursor).value@) + event_bytes(*ev) <= isize::MAX,
    ensures
        final(cursor).wf(),
        final(cursor)@ == number_edit(old(cursor)@, *ev, signed, float),
        r == number_key_kind(*ev),
{
    if ev.state != ButtonState::Pressed {
        return NumberKey::Edit;
    }
    match &ev.logical_key {
        Key::Character(s) => {
            type_number_text(cursor, s.as_str(), signed, float);
            NumberKey::Edit
        },
        Key::Space => {
            proof {
                assert(char_width(' ') == 1);
            }
            cursor.insert(' ');
            NumberKey::Edit
        },
        Key::Backspace => {
            cursor.backspace();
            NumberKey::Edit
        },
        Key::Delete => {
            cursor.delete();
            NumberKey::Edit
        },
        Key::ArrowLeft => {
            cursor.move_cursor(InputDirection::Left);
            NumberKey::Edit
        },
        Key::ArrowRight => {
            cursor.move_cursor(InputDirection::Right);
            NumberKey::Edit
        },
        Key::Enter => NumberKey::Enter,
        Key::Escape => NumberKey::Escape,
        Key::Other => NumberKey::Edit,
    }
}

/// Prompt to get a number.
///
/// # Key Events
///
/// | Key         | Action                       |
/// | ----------- | ---------------------------- |
/// | `Enter`     | Submit current/initial value |
/// | `Backspace` | Delete previous character    |
/// | `Delete`    | Delete current character     |
/// | `Left`      | Move cursor left             |
/// | `Right`     | Move cursor right            |
#[derive(Debug, Clone, Copy, PartialEq, Eq)]
pub struct Number<T> {
    /// Default value to submit when the input is empty
    pub default_value: Option<T>,
}

impl<T: NumLike> Number<T> {
    /// Set default value to submit when the input is empty.
    pub fn default(self, value: T) -> (n: Self)
        ensures
            n.default_value == Some(value),
    {
        Number { default_value: Some(value) }
    }
}

/// What a number prompt does on Enter or Escape.
#[derive(Debug, Clone, Copy, PartialEq, Eq)]
pub enum NumberOutcome<T> {
    /// Submit this number.
    Submit(T),
    /// The text is not a number of the prompt's type: warn.
    Invalid,
    /// Cancel the prompt.
    Cancel,
}

/// Apply one key event to an integer prompt. On Enter it submits the default
/// value when the text is empty and there is one, and otherwise the number
/// the text holds, or reports that it holds none; on Escape it cancels.
pub fn number_key<T: NumLike>(number: &Number<T>, cursor: &mut StringCursor, ev: &KeyboardInput) -> (r: Option<NumberOutcome<T>>)
    requires
        old(cursor).wf(),
        byte_len(old(cursor).value@) + event_bytes(*ev) <= isize::MAX,
    ensures
        final(cursor).wf(),
        final(cursor)@ == number_edit(old(cursor)@, *ev, T::signed(), false),
        number_key_kind(*ev) == NumberKey::Edit ==> r is None,
        number_key_kind(*ev) == NumberKey::Escape ==> r == Some(NumberOutcome::<T>::Cancel),
        number_key_kind(*ev) == NumberKey::Enter ==> {
            let text = old(cursor).value@;
            if text.len() == 0 && number.default_value is Some {
                r == Some(NumberOutcome::Submit(number.default_value->0))
            } else {
                match parsed_in_range(text, T::signed(), T::lowest(), T::highest()) {
                    Some(v) => r matches Some(NumberOutcome::Submit(x)) && x.value() == v,
                    None => r == Some(NumberOutcome::<T>::Invalid),
                }
            }
        },
{
    let signed = T::is_signed();
    match number_key_edit(cursor, signed, false, ev) {
        NumberKey::Edit => None,
        NumberKey::Escape => Some(NumberOutcome::Cancel),
        NumberKey::Enter => {
            let empty = cursor.value.as_str().unicode_len() == 0;
            match number.default_value {
                Some(d) if empty => {
                    return Some(NumberOutcome::Submit(d));
                },
                _ => {},
            }
            match T::parse(cursor.value.as_str()) {
                Some(n) => Some(NumberOutcome::Submit(n)),
                None => Some(NumberOutcome::Invalid),
            }
        },
    }
}

/// No two characters of the text are decimal points.
pub open spec fn at_most_one_point(s: Seq<char>) -> bool {
    forall|i: int, j: int| 0 <= i < j < s.len() && #[trigger] s[i] == '.' ==> #[trigger] s[j] != '.'
}

proof fn lemma_insert_keeps_point(s: Seq<char>, k: int, ch: char)
    requires
        0 <= k <= s.len(),
        at_most_one_point(s),
        ch == '.' ==> !s.contains('.'),
    ensures
        at_most_one_point(s.insert(k, ch)),
{
    let t = s.insert(k, ch);
    assert forall|i: int, j: int| 0 <= i < j < t.len() && #[trigger] t[i] == '.' implies #[trigger] t[j]
        != '.' by {
        let si = if i < k { i } else { i - 1 };
        let sj = if j < k { j } else { j - 1 };
        if i != k && j != k {
            assert(t[i] == s[si] && t[j] == s[sj]);
        } else if i == k {
            assert(t[j] == s[sj]);
            assert(s[sj] == t[j]);
        } else {
            assert(t[i] == s[si]);
        }
    }
}

proof fn lemma_remove_keeps_point(s: Seq<char>, k: int)
    requires
        0 <= k < s.len(),
        at_most_one_point(s),
    ensures
        at_most_one_point(s.remove(k)),
{
    let t = s.remove(k);
    assert forall|i: int, j: int| 0 <= i < j < t.len() && #[trigger] t[i] == '.' implies #[trigger] t[j]
        != '.' by {
        let si = if i < k { i } else { i + 1 };
        let sj = if j < k { j } else { j + 1 };
        assert(t[i] == s[si] && t[j] == s[sj]);
    }
}

proof fn lemma_type_number_keeps_point(c: (Seq<char>, int), t: Seq<char>, signed: bool, float: bool)
    requires
        cursor_valid(c),
        at_most_one_point(c.0),
    ensures
        cursor_valid(type_number(c, t, signed, float)),
        at_most_one_point(type_number(c, t, signed, float).0),
    decreases t.len(),
{
    if t.len() > 0 {
        lemma_type_number_keeps_point(c, t.drop_last(), signed, float);
        let before = type_number(c, t.drop_last(), signed, float);
        if number_char_ok(signed, float, t.last(), before) {
            lemma_insert_keeps_point(before.0, before.1, t.last());
        }
    }
}

/// A number prompt never holds two decimal points: no key event adds a
/// second one.
pub proof fn law_one_decimal_point(c: (Seq<char>, int), ev: KeyboardInput, signed: bool, float: bool)
    requires
        cursor_valid(c),
        at_most_one_point(c.0),
    ensures
        at_most_one_point(number_edit(c, ev, signed, float).0),
{
    if ev.state == ButtonState::Pressed {
        match ev.logical_key {
            Key::Character(s) => {
                lemma_type_number_keeps_point(c, s@, signed, float);
            },
            Key::Space => {
                lemma_insert_keeps_point(c.0, c.1, ' ');
            },
            Key::Backspace => {
                if c.1 > 0 {
                    lemma_remove_keeps_point(c.0, c.1 - 1);
                }
            },
            Key::Delete => {
                if c.1 < c.0.len() {
                    lemma_remove_keeps_point(c.0, c.1);
                }
            },
            _ => {},
        }
    }
}

/// What a number prompt asks for besides editing its text: a submission to
/// trigger, feedback to show, and whether to block the prompt and move the
/// focus on.
#[derive(Debug, Clone, PartialEq, Eq)]
pub struct NumberStep<T> {
    /// The submission, if any.
    pub submit: Option<Result<T, Error>>,
    /// The feedback, if any.
    pub feedback: Option<Feedback>,
    /// Block the prompt and move the focus to the next one.
    pub block_and_move: bool,
}

/// The warning shown when the text is not a number of the prompt's type.
pub open spec fn invalid_number_message(short_name: Seq<char>) -> Seq<char> {
    "invalid number for "@ + short_name
}

/// What follows the outcome of a key event: a number is submitted and the
/// prompt blocked with the focus moved on; text that holds no number gets a
/// warning naming the type; a cancellation is submitted, shown as the error
/// "canceled", and the prompt blocked with the focus moved on.
pub fn number_step<T>(outcome: Option<NumberOutcome<T>>, short_name: &str) -> (r: NumberStep<T>)
    ensures
        match outcome {
            None => r.submit is None && r.feedback is None && !r.block_and_move,
            Some(NumberOutcome::Submit(v)) => r.submit == Some(Ok::<T, Error>(v)) && r.feedback is None
                && r.block_and_move,
            Some(NumberOutcome::Invalid) => r.submit is None && (r.feedback matches Some(f) && f.kind
                == FeedbackKind::Warn && f.message@ == invalid_number_message(short_name@))
                && !r.block_and_move,
            Some(NumberOutcome::Cancel) => r.submit == Some(Err::<T, Error>(Error::Cancel)) && (
            r.feedback matches Some(f) && f.kind == FeedbackKind::Error && f.message@ == "canceled"@)
                && r.block_and_move,
        },
{
    match outcome {
        None => NumberStep { submit: None, feedback: None, block_and_move: false },
        Some(NumberOutcome::Submit(v)) => NumberStep { submit: Some(Ok(v)), feedback: None, block_and_move: true },
        Some(NumberOutcome::Invalid) => {
            let message = String::from_str("invalid number for ").concat(short_name);
            NumberStep { submit: None, feedback: Some(Feedback::warn(message.as_str())), block_and_move: false }
        },
        Some(NumberOutcome::Cancel) => NumberStep {
            submit: Some(Err(Error::Cancel)),
            feedback: Some(Feedback::error("canceled")),
            block_and_move: true,
        },
    }
}

/// Apply one key event to an integer prompt and say what follows: on Enter,
/// the default value when the text is empty and there is one, else the
/// number the text holds, is submitted and the focus moves on, or a warning
/// names the type when the text holds no number; on Escape the prompt is
/// cancelled with the error "canceled" and the focus moves on.
pub fn number_controller<T: NumLike>(number: &Number<T>, cursor: &mut StringCursor, ev: &KeyboardInput) -> (r: NumberStep<T>)
    requires
        old(cursor).wf(),
        byte_len(old(cursor).value@) + event_bytes(*ev) <= isize::MAX,
    ensures
        final(cursor).wf(),
        final(cursor)@ == number_edit(old(cursor)@, *ev, T::signed(), false),
        number_key_kind(*ev) == NumberKey::Edit ==> r.submit is None && r.feedback is None
            && !r.block_and_move,
        number_key_kind(*ev) == NumberKey::Escape ==> r.submit == Some(Err::<T, Error>(Error::Cancel))
            && (r.feedback matches Some(f) && f.kind == FeedbackKind::Error && f.message@ == "canceled"@)
            && r.block_and_move,
        number_key_kind(*ev) == NumberKey::Enter ==> {
            let text = old(cursor).value@;
            if text.len() == 0 && number.default_value is Some {
                r.submit == Some(Ok::<T, Error>(number.default_value->0)) && r.feedback is None
                    && r.block_and_move
            } else {
                match parsed_in_range(text, T::signed(), T::lowest(), T::highest()) {
                    Some(v) => (r.submit matches Some(Ok(x)) && x.value() == v) && r.feedback is None
                        && r.block_and_move,
                    None => r.submit is None && (r.feedback matches Some(f) && f.kind
                        == FeedbackKind::Warn && f.message@ == invalid_number_message(
                        T::short_name(),
                    )) && !r.block_and_move,
                }
            }
        },
{
    let outcome = number_key(number, cursor, ev);
    number_step(outcome, T::name())
}

/// A decimal digit may always be typed into a number prompt, whatever the
/// number's type and whatever its text and cursor.
pub proof fn law_digit_may_be_typed(signed: bool, float: bool, c: char, cur: (Seq<char>, int))
    requires
        '0' <= c <= '9',
    ensures
        number_char_ok(signed, float, c, cur),
{
}

/// Typing a string of decimal digits into a number inserts all of them at the
/// cursor, in order, and leaves the cursor after them.
pub proof fn law_typed_digits_are_kept(c: (Seq<char>, int), t: Seq<char>, signed: bool, float: bool)
    requires
        cursor_valid(c),
        forall|i: int| 0 <= i < t.len() ==> '0' <= #[trigger] t[i] <= '9',
    ensures
        type_number(c, t, signed, float) == (c.0.take(c.1) + t + c.0.skip(c.1), c.1 + t.len()),
    decreases t.len(),
{
    if t.len() > 0 {
        let u = t.drop_last();
        law_typed_digits_are_kept(c, u, signed, float);
        let before = type_number(c, u, signed, float);
        assert(number_char_ok(signed, float, t.last(), before));
        let a = c.0.take(c.1);
        let b = c.0.skip(c.1);
        assert((a + u + b).insert(c.1 + u.len(), t.last()) =~= a + t + b);
    }
}

/// A sign may be typed only at the start of a signed number, a decimal point
/// only into a floating-point number that has none yet, and no character but
/// these and the decimal digits ever.
pub proof fn law_number_chars(signed: bool, float: bool, c: char, cur: (Seq<char>, int))
    ensures
        c == '-' || c == '+' ==> (number_char_ok(signed, float, c, cur) <==> signed && cur.1 == 0),
        c == '.' ==> (number_char_ok(signed, float, c, cur) <==> float && !cur.0.contains('.')),
        !('0' <= c <= '9') && c != '-' && c != '+' && c != '.' ==> !number_char_ok(signed, float, c, cur),
{
}

/// The value of digits written one after another: those of `a` count
/// `10^|b|` times their value, those of `b` their own value; one digit is worth
/// its face value.
pub proof fn law_digits_value_concat(a: Seq<char>, b: Seq<char>)
    ensures
        digits_value(a + b) == digits_value(a) * pow(10, b.len()) + digits_value(b),
        forall|d: char| '0' <= d <= '9' ==> #[trigger] digits_value(seq![d]) == d as int - '0' as int,
    decreases b.len(),
{
    reveal(pow);
    assert forall|d: char| '0' <= d <= '9' implies #[trigger] digits_value(seq![d]) == d as int - '0' as int by {
        assert(seq![d].drop_last() =~= Seq::<char>::empty());
        assert(digits_value(Seq::<char>::empty()) == 0);
        assert(seq![d].last() == d);
        assert(digits_value(seq![d]) == digits_value(seq![d].drop_last()) * 10 + (d as int - '0' as int));
    }
    if b.len() == 0 {
        assert(a + b =~= a);
    } else {
        law_digits_value_concat(a, b.drop_last());
        assert((a + b).drop_last() =~= a + b.drop_last());
        assert((a + b).last() == b.last());
        let p = pow(10, (b.len() - 1) as nat);
        assert(pow(10, b.len()) == 10 * p);
        assert((digits_value(a) * p + digits_value(b.drop_last())) * 10 == digits_value(a) * (10 * p)
            + digits_value(b.drop_last()) * 10) by (nonlinear_arith);
    }
}

/// A number is read from its digits alone, or from a `+` and its digits, or,
/// for a signed type, from a `-` and its digits as their negation; a `-` in an
/// unsigned number, an empty text or a text with nothing but a sign is no
/// number.
pub proof fn law_decimal_value(d: Seq<char>, signed: bool)
    requires
        forall|i: int| 0 <= i < d.len() ==> '0' <= #[trigger] d[i] <= '9',
    ensures
        d.len() > 0 ==> decimal_value(d, signed) == Some(digits_value(d)),
        d.len() > 0 ==> decimal_value(seq!['+'] + d, signed) == Some(digits_value(d)),
        d.len() > 0 ==> decimal_value(seq!['-'] + d, true) == Some(-digits_value(d)),
        decimal_value(seq!['-'] + d, false) is None,
        decimal_value(Seq::<char>::empty(), signed) is None,
        decimal_value(seq!['+'], signed) is None,
        decimal_value(seq!['-'], signed) is None,
{
    assert((seq!['+'] + d).drop_first() =~= d);
    assert((seq!['-'] + d).drop_first() =~= d);
    assert((seq!['+'] + d)[0] == '+');
    assert((seq!['-'] + d)[0] == '-');
    assert(seq!['+'].drop_first() =~= Seq::<char>::empty());
    assert(seq!['-'].drop_first() =~= Seq::<char>::empty());
    assert(!is_digit((seq!['-'] + d)[0]));
}

/// Enter asks to submit and Escape to cancel; every other event, and every
/// released key, edits.
pub proof fn law_number_key_kinds(ev: KeyboardInput)
    ensures
        ev.state == ButtonState::Pressed && ev.logical_key == Key::Enter ==> number_key_kind(ev) == NumberKey::Enter,
        ev.state == ButtonState::Pressed && ev.logical_key == Key::Escape ==> number_key_kind(ev)
            == NumberKey::Escape,
        !(ev.state == ButtonState::Pressed && (ev.logical_key == Key::Enter || ev.logical_key == Key::Escape))
            ==> number_key_kind(ev) == NumberKey::Edit,
{
}

} // verus!
