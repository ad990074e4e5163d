//! A model of text as a sequence of `char`s stored in UTF-8, relating byte
//! offsets to character positions.
use vstd::prelude::*;
use vstd::utf8::*;

verus! {

broadcast use vstd::utf8::encode_utf8_valid_utf8;

/// Number of bytes in the UTF-8 encoding of `c`.
pub open spec fn char_width(c: char) -> nat {
    encode_scalar(c as u32).len()
}

/// Number of bytes in the UTF-8 encoding of `s`.
pub open spec fn byte_len(s: Seq<char>) -> nat {
    encode_utf8(s).len()
}

/// Byte offset `i` starts a character of `s` or is the end of `s`: it is the
/// encoded length of some prefix of `s`.
pub open spec fn is_boundary(s: Seq<char>, i: int) -> bool {
    exists|k: int| 0 <= k <= s.len() && #[trigger] byte_len(s.take(k)) == i
}

/// The number of characters of `s` that come before the byte offset `i`
/// (meaningful when `is_boundary(s, i)`).
pub open spec fn char_index(s: Seq<char>, i: int) -> int {
    choose|k: int| 0 <= k <= s.len() && #[trigger] byte_len(s.take(k)) == i
}

pub proof fn lemma_char_width(c: char)
    ensures
        1 <= char_width(c) <= 4,
{
}

pub proof fn lemma_encode_concat(a: Seq<char>, b: Seq<char>)
    ensures
        encode_utf8(a + b) == encode_utf8(a) + encode_utf8(b),
    decreases a.len(),
{
    if a.len() == 0 {
        assert(a + b =~= b);
        assert(encode_utf8(a) =~= Seq::<u8>::empty());
        assert(encode_utf8(a) + encode_utf8(b) =~= encode_utf8(b));
    } else {
        assert((a + b).drop_first() =~= a.drop_first() + b);
        assert((a + b)[0] == a[0]);
        lemma_encode_concat(a.drop_first(), b);
        assert(encode_utf8(a + b) =~= encode_utf8(a) + encode_utf8(b));
    }
}

pub proof fn lemma_encode_single(c: char)
    ensures
        encode_utf8(seq![c]) == encode_scalar(c as u32),
{
    assert(seq![c].drop_first() =~= Seq::<char>::empty());
    assert(seq![c][0] == c);
    assert(encode_utf8(Seq::<char>::empty()) =~= Seq::<u8>::empty());
    assert(encode_utf8(seq![c]) == encode_scalar(c as u32) + encode_utf8(seq![c].drop_first()));
    assert(encode_utf8(seq![c]) =~= encode_scalar(c as u32));
}

/// The encoded length of a one-longer prefix grows by the width of the added character.
pub proof fn lemma_prefix_step(s: Seq<char>, k: int)
    requires
        0 <= k < s.len(),
    ensures
        byte_len(s.take(k + 1)) == byte_len(s.take(k)) + char_width(s[k]),
{
    assert(s.take(k + 1) =~= s.take(k) + seq![s[k]]);
    lemma_encode_concat(s.take(k), seq![s[k]]);
    lemma_encode_single(s[k]);
}

pub proof fn lemma_byte_len_concat(a: Seq<char>, b: Seq<char>)
    ensures
        byte_len(a + b) == byte_len(a) + byte_len(b),
{
    lemma_encode_concat(a, b);
}

/// Longer prefixes have strictly longer encodings, by at least one byte per character.
pub proof fn lemma_prefix_mono(s: Seq<char>, j: int, k: int)
    requires
        0 <= j <= k <= s.len(),
    ensures
        byte_len(s.take(j)) + (k - j) <= byte_len(s.take(k)),
        byte_len(s.take(k)) <= byte_len(s.take(j)) + 4 * (k - j),
    decreases k - j,
{
    if j < k {
        lemma_prefix_mono(s, j, k - 1);
        lemma_prefix_step(s, k - 1);
        lemma_char_width(s[k - 1]);
    }
}

pub proof fn lemma_take_all(s: Seq<char>)
    ensures
        byte_len(s.take(s.len() as int)) == byte_len(s),
{
    assert(s.take(s.len() as int) =~= s);
}

/// Distinct prefixes have distinct encoded lengths.
pub proof fn lemma_prefix_inj(s: Seq<char>, j: int, k: int)
    requires
        0 <= j <= s.len(),
        0 <= k <= s.len(),
        byte_len(s.take(j)) == byte_len(s.take(k)),
    ensures
        j == k,
{
    if j < k {
        lemma_prefix_mono(s, j, k);
    } else if k < j {
        lemma_prefix_mono(s, k, j);
    }
}

/// The character index of the boundary at the end of the `k`-character prefix is `k`.
pub proof fn lemma_char_index_of_prefix(s: Seq<char>, k: int)
    requires
        0 <= k <= s.len(),
    ensures
        is_boundary(s, byte_len(s.take(k)) as int),
        char_index(s, byte_len(s.take(k)) as int) == k,
{
    let i = byte_len(s.take(k)) as int;
    assert(is_boundary(s, i));
    let c = char_index(s, i);
    lemma_prefix_inj(s, c, k);
}

/// Every boundary lies within the encoding.
pub proof fn lemma_boundary_range(s: Seq<char>, i: int)
    requires
        is_boundary(s, i),
    ensures
        0 <= i <= byte_len(s),
        0 <= char_index(s, i) <= s.len(),
        byte_len(s.take(char_index(s, i))) == i,
{
    let k = char_index(s, i);
    lemma_prefix_mono(s, 0, k);
    lemma_prefix_mono(s, k, s.len() as int);
    lemma_take_all(s);
}

/// The boundary notion of the standard library (over the encoded bytes)
/// coincides with `is_boundary`.
pub proof fn lemma_boundary_iff(s: Seq<char>, i: int)
    ensures
        is_char_boundary(encode_utf8(s), i) <==> is_boundary(s, i),
    decreases s.len(),
{
    let bytes = encode_utf8(s);
    assert(s.take(0) =~= Seq::<char>::empty());
    if i == 0 {
        assert(byte_len(s.take(0)) == 0);
    } else if i < 0 || bytes.len() < i {
        if is_boundary(s, i) {
            let k = choose|k: int| 0 <= k <= s.len() && #[trigger] byte_len(s.take(k)) == i;
            lemma_prefix_mono(s, 0, k);
            lemma_prefix_mono(s, k, s.len() as int);
            lemma_take_all(s);
        }
    } else {
        assert(s.len() > 0);
        let rest = s.drop_first();
        encode_utf8_first_scalar(s);
        let w = char_width(s[0]) as int;
        assert(pop_first_scalar(bytes) =~= encode_utf8(rest));
        lemma_boundary_iff(rest, i - w);
        assert(is_char_boundary(bytes, i) == is_char_boundary(encode_utf8(rest), i - w));
        if is_boundary(rest, i - w) {
            let k = choose|k: int| 0 <= k <= rest.len() && #[trigger] byte_len(rest.take(k)) == i - w;
            assert(s.take(k + 1) =~= seq![s[0]] + rest.take(k));
            lemma_byte_len_concat(seq![s[0]], rest.take(k));
            lemma_encode_single(s[0]);
            assert(byte_len(s.take(k + 1)) == i);
        }
        if is_boundary(s, i) {
            let k = choose|k: int| 0 <= k <= s.len() && #[trigger] byte_len(s.take(k)) == i;
            assert(k > 0);
            assert(s.take(k) =~= seq![s[0]] + rest.take(k - 1));
            lemma_byte_len_concat(seq![s[0]], rest.take(k - 1));
            lemma_encode_single(s[0]);
            assert(byte_len(rest.take(k - 1)) == i - w);
        }
    }
}

/// Inserting a character adds its width to the encoding, and the prefix
/// that ends with it.
pub proof fn lemma_insert_lens(s: Seq<char>, k: int, c: char)
    requires
        0 <= k <= s.len(),
    ensures
        byte_len(s.insert(k, c)) == byte_len(s) + char_width(c),
        s.insert(k, c).take(k) == s.take(k),
        byte_len(s.insert(k, c).take(k + 1)) == byte_len(s.take(k)) + char_width(c),
{
    let t = s.insert(k, c);
    assert(t =~= s.take(k) + (seq![c] + s.skip(k)));
    assert(s =~= s.take(k) + s.skip(k));
    lemma_byte_len_concat(s.take(k), seq![c] + s.skip(k));
    lemma_byte_len_concat(seq![c], s.skip(k));
    lemma_byte_len_concat(s.take(k), s.skip(k));
    lemma_encode_single(c);
    assert(t.take(k) =~= s.take(k));
    assert(t.take(k + 1) =~= s.take(k) + seq![c]);
    lemma_byte_len_concat(s.take(k), seq![c]);
}

/// Removing a character takes its width off the encoding and leaves the
/// prefix before it unchanged.
pub proof fn lemma_remove_lens(s: Seq<char>, k: int)
    requires
        0 <= k < s.len(),
    ensures
        byte_len(s.remove(k)) + char_width(s[k]) == byte_len(s),
        s.remove(k).take(k) == s.take(k),
{
    let t = s.remove(k);
    assert(t =~= s.take(k) + s.skip(k + 1));
    assert(s =~= s.take(k) + (seq![s[k]] + s.skip(k + 1)));
    lemma_byte_len_concat(s.take(k), s.skip(k + 1));
    lemma_byte_len_concat(s.take(k), seq![s[k]] + s.skip(k + 1));
    lemma_byte_len_concat(seq![s[k]], s.skip(k + 1));
    lemma_encode_single(s[k]);
    assert(t.take(k) =~= s.take(k));
}

} // verus!
