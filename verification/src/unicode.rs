//! White space, by characters.
//!
//! `text` tells white space from the bytes of a text. Here the same is said of
//! its characters, and the two are shown to agree.
use crate::text::{
    bytes_of, is_medium_space, is_narrow_space, is_wide_space, leading_space, space_at_back,
    space_at_front, spec_trim, spec_trim_end, spec_trim_start, trailing_space,
};
use vstd::prelude::*;
use vstd::utf8::{encode_scalar, encode_utf8};

verus! {

/// The white-space characters: U+0009 to U+000D, U+0020, U+0085, U+00A0,
/// U+1680, U+2000 to U+200A, U+2028, U+2029, U+202F, U+205F and U+3000.
pub open spec fn is_white_space(c: char) -> bool {
    let u = c as u32;
    ||| (0x09 <= u && u <= 0x0d)
    ||| u == 0x20
    ||| u == 0x85
    ||| u == 0xa0
    ||| u == 0x1680
    ||| (0x2000 <= u && u <= 0x200a)
    ||| u == 0x2028
    ||| u == 0x2029
    ||| u == 0x202f
    ||| u == 0x205f
    ||| u == 0x3000
}

/// The number of white-space characters that the text begins with.
pub open spec fn leading_white(chars: Seq<char>) -> nat
    decreases chars.len(),
{
    if chars.len() > 0 && is_white_space(chars[0]) {
        1 + leading_white(chars.drop_first())
    } else {
        0
    }
}

/// The number of white-space characters that the text ends with.
pub open spec fn trailing_white(chars: Seq<char>) -> nat
    decreases chars.len(),
{
    if chars.len() > 0 && is_white_space(chars.last()) {
        1 + trailing_white(chars.drop_last())
    } else {
        0
    }
}

/// The text without the white-space characters it begins with.
pub open spec fn trim_start_chars(chars: Seq<char>) -> Seq<char> {
    chars.skip(leading_white(chars) as int)
}

/// The text without the white-space characters it ends with.
pub open spec fn trim_end_chars(chars: Seq<char>) -> Seq<char> {
    chars.take(chars.len() - trailing_white(chars))
}

/// The text without the white-space characters at either end.
pub open spec fn trim_chars(chars: Seq<char>) -> Seq<char> {
    trim_end_chars(trim_start_chars(chars))
}

proof fn lemma_one_byte(s: u32)
    by (bit_vector)
    requires
        s <= 0x7f,
    ensures
        ((s & 0x7f) as u8) < 0x80,
        ((s & 0x7f) as u8 == 0x20 || (0x09 <= (s & 0x7f) as u8 && (s & 0x7f) as u8 <= 0x0d)) == (s
            == 0x20 || (0x09 <= s && s <= 0x0d)),
{
}

proof fn lemma_two_bytes(s: u32)
    by (bit_vector)
    requires
        0x80 <= s && s <= 0x7ff,
    ensures
        0xc0 <= (0xc0u8 | ((s >> 6) & 0x1f) as u8) && (0xc0u8 | ((s >> 6) & 0x1f) as u8) <= 0xdf,
        0x80 <= (0x80u8 | (s & 0x3f) as u8) && (0x80u8 | (s & 0x3f) as u8) <= 0xbf,
        ((0xc0u8 | ((s >> 6) & 0x1f) as u8) == 0xc2 && ((0x80u8 | (s & 0x3f) as u8) == 0x85 || (
        0x80u8 | (s & 0x3f) as u8) == 0xa0)) == (s == 0x85 || s == 0xa0),
{
}

proof fn lemma_three_bytes(s: u32)
    by (bit_vector)
    requires
        0x800 <= s && s <= 0xffff,
    ensures
        0xe0 <= (0xe0u8 | ((s >> 12) & 0x0f) as u8) && (0xe0u8 | ((s >> 12) & 0x0f) as u8)
            <= 0xef,
        0x80 <= (0x80u8 | ((s >> 6) & 0x3f) as u8) && (0x80u8 | ((s >> 6) & 0x3f) as u8) <= 0xbf,
        0x80 <= (0x80u8 | (s & 0x3f) as u8) && (0x80u8 | (s & 0x3f) as u8) <= 0xbf,
        (((0xe0u8 | ((s >> 12) & 0x0f) as u8) == 0xe1 && (0x80u8 | ((s >> 6) & 0x3f) as u8) == 0x9a
            && (0x80u8 | (s & 0x3f) as u8) == 0x80) || ((0xe0u8 | ((s >> 12) & 0x0f) as u8) == 0xe2
            && (0x80u8 | ((s >> 6) & 0x3f) as u8) == 0x80 && ((0x80 <= (0x80u8 | (s & 0x3f) as u8)
            && (0x80u8 | (s & 0x3f) as u8) <= 0x8a) || (0x80u8 | (s & 0x3f) as u8) == 0xa8 || (
        0x80u8 | (s & 0x3f) as u8) == 0xa9 || (0x80u8 | (s & 0x3f) as u8) == 0xaf)) || ((0xe0u8 | ((
        s >> 12) & 0x0f) as u8) == 0xe2 && (0x80u8 | ((s >> 6) & 0x3f) as u8) == 0x81 && (0x80u8 | (
        s & 0x3f) as u8) == 0x9f) || ((0xe0u8 | ((s >> 12) & 0x0f) as u8) == 0xe3 && (0x80u8 | ((s
            >> 6) & 0x3f) as u8) == 0x80 && (0x80u8 | (s & 0x3f) as u8) == 0x80)) == (s == 0x1680
            || (0x2000 <= s && s <= 0x200a) || s == 0x2028 || s == 0x2029 || s == 0x202f || s
            == 0x205f || s == 0x3000),
{
}

proof fn lemma_four_bytes(s: u32)
    by (bit_vector)
    requires
        0x10000 <= s && s <= 0x10ffff,
    ensures
        0xf0 <= (0xf0u8 | ((s >> 18) & 0x7) as u8),
        0x80 <= (0x80u8 | ((s >> 12) & 0x3f) as u8) && (0x80u8 | ((s >> 12) & 0x3f) as u8)
            <= 0xbf,
        0x80 <= (0x80u8 | ((s >> 6) & 0x3f) as u8) && (0x80u8 | ((s >> 6) & 0x3f) as u8) <= 0xbf,
        0x80 <= (0x80u8 | (s & 0x3f) as u8) && (0x80u8 | (s & 0x3f) as u8) <= 0xbf,
{
}

/// The bytes of one character: how many they are, which ranges they fall in,
/// and that they are those of white space where the character is white space.
pub proof fn lemma_bytes_of_char(c: char)
    ensures
        ({
            let e = encode_scalar(c as u32);
            &&& 1 <= e.len() <= 4
            &&& (e.len() == 1 ==> e[0] < 0x80 && is_narrow_space(e[0]) == is_white_space(c))
            &&& (e.len() == 2 ==> 0xc0 <= e[0] <= 0xdf && 0x80 <= e[1] <= 0xbf && is_medium_space(
                e[0],
                e[1],
            ) == is_white_space(c))
            &&& (e.len() == 3 ==> 0xe0 <= e[0] <= 0xef && 0x80 <= e[1] <= 0xbf && 0x80 <= e[2]
                <= 0xbf && is_wide_space(e[0], e[1], e[2]) == is_white_space(c))
            &&& (e.len() == 4 ==> 0xf0 <= e[0] && 0x80 <= e[1] <= 0xbf && 0x80 <= e[2] <= 0xbf
                && 0x80 <= e[3] <= 0xbf && !is_white_space(c))
        }),
{
    let s = c as u32;
    vstd::utf8::char_is_scalar(c);
    if s <= 0x7f {
        lemma_one_byte(s);
    } else if s <= 0x7ff {
        lemma_two_bytes(s);
    } else if s <= 0xffff {
        lemma_three_bytes(s);
    } else {
        lemma_four_bytes(s);
    }
}

/// The bytes of a text are those of its first character, then those of the
/// rest.
pub proof fn lemma_bytes_of_first(chars: Seq<char>)
    requires
        chars.len() > 0,
    ensures
        bytes_of(chars) == encode_scalar(chars[0] as u32) + bytes_of(chars.drop_first()),
{
}

/// The bytes of two texts in a row are the bytes of the one, then those of the
/// other.
pub proof fn lemma_bytes_of_both(a: Seq<char>, b: Seq<char>)
    ensures
        bytes_of(a + b) == bytes_of(a) + bytes_of(b),
    decreases a.len(),
{
    if a.len() == 0 {
        assert(a + b =~= b);
        assert(bytes_of(a) + bytes_of(b) =~= bytes_of(b));
    } else {
        lemma_bytes_of_both(a.drop_first(), b);
        assert((a + b).drop_first() =~= a.drop_first() + b);
        assert(encode_scalar(a[0] as u32) + (bytes_of(a.drop_first()) + bytes_of(b)) =~= (
        encode_scalar(a[0] as u32) + bytes_of(a.drop_first())) + bytes_of(b));
    }
}

/// The bytes of a text are those of all but its last character, then those of
/// the last.
pub proof fn lemma_bytes_of_last(chars: Seq<char>)
    requires
        chars.len() > 0,
    ensures
        bytes_of(chars) == bytes_of(chars.drop_last()) + encode_scalar(chars.last() as u32),
{
    let last = seq![chars.last()];
    assert(chars =~= chars.drop_last() + last);
    lemma_bytes_of_both(chars.drop_last(), last);
    assert(last.drop_first() =~= Seq::<char>::empty());
    assert(bytes_of(Seq::<char>::empty()) =~= Seq::<u8>::empty());
    assert(bytes_of(last) =~= encode_scalar(last[0] as u32));
}

/// The bytes of a text begin with white space where its first character is
/// white space, and that white space is the bytes of the character.
pub proof fn lemma_space_at_front(chars: Seq<char>)
    ensures
        space_at_front(bytes_of(chars)) == (if chars.len() > 0 && is_white_space(chars[0]) {
            encode_scalar(chars[0] as u32).len()
        } else {
            0
        }),
{
    if chars.len() > 0 {
        lemma_bytes_of_first(chars);
        lemma_bytes_of_char(chars[0]);
        if chars.len() > 1 {
            lemma_bytes_of_first(chars.drop_first());
            lemma_bytes_of_char(chars[1]);
            if chars.len() > 2 {
                lemma_bytes_of_first(chars.drop_first().drop_first());
                lemma_bytes_of_char(chars[2]);
            }
        }
    }
}

/// The bytes of a text end with white space where its last character is
/// white space, and that white space is the bytes of the character.
pub proof fn lemma_space_at_back(chars: Seq<char>)
    ensures
        space_at_back(bytes_of(chars)) == (if chars.len() > 0 && is_white_space(chars.last()) {
            encode_scalar(chars.last() as u32).len()
        } else {
            0
        }),
{
    if chars.len() > 0 {
        lemma_bytes_of_last(chars);
        lemma_bytes_of_char(chars.last());
        let before = chars.drop_last();
        if before.len() > 0 {
            lemma_bytes_of_last(before);
            lemma_bytes_of_char(before.last());
            if before.len() > 1 {
                lemma_bytes_of_last(before.drop_last());
                lemma_bytes_of_char(before.drop_last().last());
            }
        }
    }
}

/// The white space that the bytes of a text begin with is the bytes of the
/// white-space characters that the text begins with.
pub proof fn lemma_leading_space(chars: Seq<char>)
    ensures
        leading_space(bytes_of(chars)) == bytes_of(chars.take(leading_white(chars) as int)).len(),
        leading_white(chars) <= chars.len(),
    decreases chars.len(),
{
    lemma_space_at_front(chars);
    if chars.len() > 0 && is_white_space(chars[0]) {
        let rest = chars.drop_first();
        let e = encode_scalar(chars[0] as u32);
        lemma_bytes_of_first(chars);
        lemma_leading_space(rest);
        assert(bytes_of(chars).skip(e.len() as int) =~= bytes_of(rest));
        let k = leading_white(rest) as int;
        assert(chars.take(k + 1) =~= seq![chars[0]] + rest.take(k));
        lemma_bytes_of_first(chars.take(k + 1));
        assert(chars.take(k + 1).drop_first() =~= rest.take(k));
    } else {
        assert(chars.take(0) =~= Seq::<char>::empty());
    }
}

/// The white space that the bytes of a text end with is the bytes of the
/// white-space characters that the text ends with.
pub proof fn lemma_trailing_space(chars: Seq<char>)
    ensures
        trailing_space(bytes_of(chars)) == bytes_of(
            chars.skip(chars.len() - trailing_white(chars)),
        ).len(),
        trailing_white(chars) <= chars.len(),
    decreases chars.len(),
{
    lemma_space_at_back(chars);
    if chars.len() > 0 && is_white_space(chars.last()) {
        let rest = chars.drop_last();
        let e = encode_scalar(chars.last() as u32);
        lemma_bytes_of_last(chars);
        lemma_trailing_space(rest);
        assert(bytes_of(chars).take(bytes_of(chars).len() - e.len()) =~= bytes_of(rest));
        let k = trailing_white(rest) as int;
        let tail = chars.skip(chars.len() - (k + 1));
        assert(tail =~= rest.skip(rest.len() - k) + seq![chars.last()]);
        lemma_bytes_of_last(tail);
        assert(tail.drop_last() =~= rest.skip(rest.len() - k));
    } else {
        assert(chars.skip(chars.len() as int) =~= Seq::<char>::empty());
    }
}

/// To drop the white space that the bytes of a text begin with is to drop the
/// white-space characters that the text begins with.
pub proof fn lemma_trim_start(chars: Seq<char>)
    ensures
        spec_trim_start(bytes_of(chars)) == bytes_of(trim_start_chars(chars)),
{
    lemma_leading_space(chars);
    let k = leading_white(chars) as int;
    assert(chars =~= chars.take(k) + chars.skip(k));
    lemma_bytes_of_both(chars.take(k), chars.skip(k));
    assert((bytes_of(chars.take(k)) + bytes_of(chars.skip(k))).skip(
        bytes_of(chars.take(k)).len() as int,
    ) =~= bytes_of(chars.skip(k)));
}

/// To drop the white space that the bytes of a text end with is to drop the
/// white-space characters that the text ends with.
pub proof fn lemma_trim_end(chars: Seq<char>)
    ensures
        spec_trim_end(bytes_of(chars)) == bytes_of(trim_end_chars(chars)),
{
    lemma_trailing_space(chars);
    let k = chars.len() - trailing_white(chars);
    assert(chars =~= chars.take(k) + chars.skip(k));
    lemma_bytes_of_both(chars.take(k), chars.skip(k));
    assert((bytes_of(chars.take(k)) + bytes_of(chars.skip(k))).take(
        bytes_of(chars.take(k)).len() as int,
    ) =~= bytes_of(chars.take(k)));
}

/// To drop the white space at either end of the bytes of a text is to drop
/// the white-space characters at either end of the text.
pub proof fn lemma_trim(chars: Seq<char>)
    ensures
        spec_trim(bytes_of(chars)) == bytes_of(trim_chars(chars)),
{
    lemma_trim_start(chars);
    lemma_trim_end(trim_start_chars(chars));
}

} // verus!
