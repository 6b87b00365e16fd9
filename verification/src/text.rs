//! Text as bytes.
//!
//! Script text is handled as the sequence of bytes of its UTF-8 encoding. For a
//! string slice `s` that sequence is `s.spec_bytes()`; for an owned string it is
//! `bytes_of(s@)`. Every contract in this crate speaks of those bytes, and
//! positions are byte positions.
use crate::unicode::{lemma_trim, lemma_trim_start, trim_chars, trim_start_chars};
use vstd::prelude::*;
use vstd::string::StringSliceAdditionalSpecFns;
use vstd::utf8::*;

verus! {

broadcast use {
    vstd::utf8::encode_utf8_valid_utf8,
    vstd::utf8::encode_utf8_decode_utf8,
    vstd::slice::group_slice_axioms,
};

/// The bytes that encode a sequence of characters.
pub open spec fn bytes_of(chars: Seq<char>) -> Seq<u8> {
    encode_utf8(chars)
}

/// White space that takes one byte: tab, line feed, vertical tab, form feed,
/// carriage return and space.
pub open spec fn is_narrow_space(b: u8) -> bool {
    b == 0x20 || (0x09 <= b && b <= 0x0d)
}

/// White space that takes two bytes: U+0085 and U+00A0.
pub open spec fn is_medium_space(a: u8, b: u8) -> bool {
    a == 0xc2 && (b == 0x85 || b == 0xa0)
}

/// White space that takes three bytes: U+1680, U+2000 to U+200A, U+2028,
/// U+2029, U+202F, U+205F and U+3000.
pub open spec fn is_wide_space(a: u8, b: u8, c: u8) -> bool {
    ||| (a == 0xe1 && b == 0x9a && c == 0x80)
    ||| (a == 0xe2 && b == 0x80 && ((0x80 <= c && c <= 0x8a) || c == 0xa8 || c == 0xa9 || c
        == 0xaf))
    ||| (a == 0xe2 && b == 0x81 && c == 0x9f)
    ||| (a == 0xe3 && b == 0x80 && c == 0x80)
}

/// The number of bytes of the white-space character that `s` begins with, 0 if
/// it begins with none.
pub open spec fn space_at_front(s: Seq<u8>) -> nat {
    if s.len() >= 1 && is_narrow_space(s[0]) {
        1
    } else if s.len() >= 2 && is_medium_space(s[0], s[1]) {
        2
    } else if s.len() >= 3 && is_wide_space(s[0], s[1], s[2]) {
        3
    } else {
        0
    }
}

/// The number of bytes of the white-space character that `s` ends with, 0 if it
/// ends with none.
pub open spec fn space_at_back(s: Seq<u8>) -> nat {
    let n = s.len() as int;
    if n >= 1 && is_narrow_space(s[n - 1]) {
        1
    } else if n >= 2 && is_medium_space(s[n - 2], s[n - 1]) {
        2
    } else if n >= 3 && is_wide_space(s[n - 3], s[n - 2], s[n - 1]) {
        3
    } else {
        0
    }
}

/// The number of bytes of white space that `s` begins with.
pub open spec fn leading_space(s: Seq<u8>) -> nat
    decreases s.len(),
{
    let w = space_at_front(s);
    if w == 0 {
        0
    } else {
        w + leading_space(s.skip(w as int))
    }
}

/// The number of bytes of white space that `s` ends with.
pub open spec fn trailing_space(s: Seq<u8>) -> nat
    decreases s.len(),
{
    let w = space_at_back(s);
    if w == 0 {
        0
    } else {
        w + trailing_space(s.take(s.len() - w))
    }
}

/// `s` without the white space it begins with.
pub open spec fn spec_trim_start(s: Seq<u8>) -> Seq<u8> {
    s.skip(leading_space(s) as int)
}

/// `s` without the white space it ends with.
pub open spec fn spec_trim_end(s: Seq<u8>) -> Seq<u8> {
    s.take(s.len() - trailing_space(s))
}

/// `s` without the white space at either end.
pub open spec fn spec_trim(s: Seq<u8>) -> Seq<u8> {
    spec_trim_end(spec_trim_start(s))
}

/// The first position from `i` on at which a white-space character begins.
pub open spec fn first_space_from(s: Seq<u8>, i: int) -> Option<int>
    decreases s.len() - i,
{
    if i < 0 || i >= s.len() {
        None
    } else if space_at_front(s.skip(i)) > 0 {
        Some(i)
    } else {
        first_space_from(s, i + 1)
    }
}

/// The first position at which a white-space character begins.
pub open spec fn first_space(s: Seq<u8>) -> Option<int> {
    first_space_from(s, 0)
}

/// The first position from `i` on at which `pattern` occurs.
pub open spec fn first_match_from(s: Seq<u8>, pattern: Seq<u8>, i: int) -> Option<int>
    decreases s.len() - i + 1,
{
    if i < 0 || i + pattern.len() > s.len() {
        None
    } else if s.subrange(i, i + pattern.len()) == pattern {
        Some(i)
    } else {
        first_match_from(s, pattern, i + 1)
    }
}

/// The first position at which `pattern` occurs; 0 for the empty pattern.
pub open spec fn first_match(s: Seq<u8>, pattern: Seq<u8>) -> Option<int> {
    first_match_from(s, pattern, 0)
}

pub proof fn lemma_leading_space_bound(s: Seq<u8>)
    ensures
        leading_space(s) <= s.len(),
    decreases s.len(),
{
    let w = space_at_front(s);
    if w != 0 {
        lemma_leading_space_bound(s.skip(w as int));
    }
}

pub proof fn lemma_trailing_space_bound(s: Seq<u8>)
    ensures
        trailing_space(s) <= s.len(),
    decreases s.len(),
{
    let w = space_at_back(s);
    if w != 0 {
        lemma_trailing_space_bound(s.take(s.len() - w));
    }
}

/// What is left when the white space at the front is dropped begins with no
/// white space.
pub proof fn lemma_trim_start_is_trimmed(s: Seq<u8>)
    ensures
        space_at_front(spec_trim_start(s)) == 0,
    decreases s.len(),
{
    let w = space_at_front(s);
    if w == 0 {
        assert(s.skip(0) =~= s);
    } else {
        let rest = s.skip(w as int);
        lemma_leading_space_bound(rest);
        lemma_trim_start_is_trimmed(rest);
        assert(rest.skip(leading_space(rest) as int) =~= s.skip(leading_space(s) as int));
    }
}

/// What is left when the white space at the back is dropped ends with no
/// white space.
pub proof fn lemma_trim_end_is_trimmed(s: Seq<u8>)
    ensures
        space_at_back(spec_trim_end(s)) == 0,
    decreases s.len(),
{
    let w = space_at_back(s);
    if w == 0 {
        assert(s.take(s.len() as int) =~= s);
    } else {
        let rest = s.take(s.len() - w);
        lemma_trailing_space_bound(rest);
        lemma_trim_end_is_trimmed(rest);
        assert(rest.take(rest.len() - trailing_space(rest)) =~= s.take(
            s.len() - trailing_space(s),
        ));
    }
}

/// To drop the white space at either end a second time changes nothing.
pub proof fn lemma_trim_is_trimmed(s: Seq<u8>)
    ensures
        spec_trim(spec_trim(s)) == spec_trim(s),
{
    let t = spec_trim_start(s);
    let r = spec_trim(s);
    lemma_trim_start_is_trimmed(s);
    lemma_trim_end_is_trimmed(t);
    lemma_trailing_space_bound(t);
    assert(space_at_front(r) == 0);
    assert(r.skip(0) =~= r);
    assert(r.take(r.len() as int) =~= r);
}

/// A space at the end changes nothing at the front of text that is not empty.
pub proof fn lemma_space_at_front_of_longer(s: Seq<u8>)
    requires
        s.len() > 0,
    ensures
        space_at_front(s.push(0x20)) == space_at_front(s),
{
}

/// A space at the end changes nothing of the white space at the front of text
/// that is not all white space.
pub proof fn lemma_leading_space_of_longer(s: Seq<u8>)
    requires
        leading_space(s) < s.len(),
    ensures
        leading_space(s.push(0x20)) == leading_space(s),
    decreases s.len(),
{
    let w = space_at_front(s);
    lemma_space_at_front_of_longer(s);
    if w != 0 {
        assert(s.push(0x20).skip(w as int) =~= s.skip(w as int).push(0x20));
        lemma_leading_space_of_longer(s.skip(w as int));
    }
}

/// A space behind text changes nothing of what the text is without the white
/// space round it, unless that is nothing.
pub proof fn lemma_trim_of_longer(s: Seq<u8>)
    requires
        spec_trim(s).len() > 0,
    ensures
        spec_trim(s.push(0x20)) == spec_trim(s),
{
    let k = leading_space(s) as int;
    lemma_leading_space_bound(s);
    lemma_leading_space_of_longer(s);
    let t = s.skip(k);
    let longer = t.push(0x20);
    lemma_trailing_space_bound(t);
    assert(s.push(0x20).skip(k) =~= longer);
    assert(longer.take(longer.len() - 1) =~= t);
    assert(trailing_space(longer) == 1 + trailing_space(t));
    assert(longer.take(longer.len() - trailing_space(longer)) =~= t.take(
        t.len() - trailing_space(t),
    ));
}

/// A leading byte of an encoded character is no continuation byte, and a piece
/// of text that is not empty begins with a leading byte.
pub proof fn lemma_first_byte_leads(bytes: Seq<u8>)
    requires
        valid_utf8(bytes),
        bytes.len() > 0,
    ensures
        !is_continuation_byte(bytes[0]),
        1 <= length_of_first_scalar(bytes) <= bytes.len(),
        valid_utf8(bytes.skip(length_of_first_scalar(bytes))),
{
    assert(bytes.skip(length_of_first_scalar(bytes)) =~= pop_first_scalar(bytes));
}

/// The position behind the character that begins at a boundary is a boundary.
pub proof fn lemma_next_boundary(bytes: Seq<u8>, i: int)
    requires
        valid_utf8(bytes),
        0 <= i < bytes.len(),
        is_char_boundary(bytes, i),
    ensures
        i + length_of_first_scalar(bytes.skip(i)) <= bytes.len(),
        is_char_boundary(bytes, i + length_of_first_scalar(bytes.skip(i))),
        valid_utf8(bytes.skip(i)),
{
    let rest = bytes.skip(i);
    assert(rest =~= bytes.subrange(i, bytes.len() as int));
    valid_utf8_split(bytes, i);
    lemma_first_byte_leads(rest);
    let w = length_of_first_scalar(rest);
    let after = rest.skip(w);
    assert(after =~= bytes.skip(i + w));
    if i + w < bytes.len() {
        lemma_first_byte_leads(after);
        assert(after[0] == bytes[i + w]);
        is_char_boundary_iff_not_is_continuation_byte(bytes, i + w);
    } else {
        is_char_boundary_start_end_of_seq(bytes);
    }
}

/// The position behind a byte below 0x80 is a boundary, and so is its own.
pub proof fn lemma_boundary_around_ascii(bytes: Seq<u8>, i: int)
    requires
        valid_utf8(bytes),
        0 <= i < bytes.len(),
        bytes[i] < 0x80,
    ensures
        is_char_boundary(bytes, i),
        is_char_boundary(bytes, i + 1),
{
    is_char_boundary_iff_not_is_continuation_byte(bytes, i);
    lemma_next_boundary(bytes, i);
}

/// A position whose byte is no continuation byte is a boundary, and so is the end.
pub proof fn lemma_boundary_at(bytes: Seq<u8>, i: int)
    requires
        valid_utf8(bytes),
        0 <= i <= bytes.len(),
        i < bytes.len() ==> !is_continuation_byte(bytes[i]),
    ensures
        is_char_boundary(bytes, i),
{
    if i < bytes.len() {
        is_char_boundary_iff_not_is_continuation_byte(bytes, i);
    } else {
        is_char_boundary_start_end_of_seq(bytes);
    }
}

/// The position behind an occurrence of valid text, which itself begins at a
/// boundary, is a boundary.
pub proof fn lemma_boundary_after_part(bytes: Seq<u8>, i: int, j: int)
    requires
        valid_utf8(bytes),
        0 <= i <= j <= bytes.len(),
        is_char_boundary(bytes, i),
        valid_utf8(bytes.subrange(i, j)),
    ensures
        is_char_boundary(bytes, j),
{
    if j < bytes.len() {
        valid_utf8_split(bytes, i);
        let rest = bytes.subrange(i, bytes.len() as int);
        assert(rest.subrange(0, j - i) =~= bytes.subrange(i, j));
        let tail = rest.subrange(j - i, rest.len() as int);
        assert(tail =~= bytes.subrange(j, bytes.len() as int));
        if !valid_utf8(tail) {
            partial_valid_partial_invalid_utf8(rest, j - i);
        }
        lemma_first_byte_leads(tail);
        assert(tail[0] == bytes[j]);
        is_char_boundary_iff_not_is_continuation_byte(bytes, j);
    } else {
        is_char_boundary_start_end_of_seq(bytes);
    }
}

/// The part of `s` between two boundaries.
pub fn slice<'a>(s: &'a str, from: usize, to: usize) -> (r: &'a str)
    requires
        from <= to <= s.spec_bytes().len(),
        is_char_boundary(s.spec_bytes(), from as int),
        is_char_boundary(s.spec_bytes(), to as int),
    ensures
        r.spec_bytes() == s.spec_bytes().subrange(from as int, to as int),
{
    let (head, _) = s.split_at(to);
    proof {
        let bytes = s.spec_bytes();
        valid_utf8_split(bytes, to as int);
        if from < to {
            is_char_boundary_iff_not_is_continuation_byte(bytes, from as int);
            assert(head.spec_bytes()[from as int] == bytes[from as int]);
        }
        lemma_boundary_at(head.spec_bytes(), from as int);
    }
    let (_, part) = head.split_at(from);
    assert(part.spec_bytes() =~= s.spec_bytes().subrange(from as int, to as int));
    part
}

/// Text is determined by its bytes.
pub proof fn lemma_bytes_determine_text(a: Seq<char>, b: Seq<char>)
    ensures
        (bytes_of(a) == bytes_of(b)) == (a == b),
{
    if bytes_of(a) == bytes_of(b) {
        assert(decode_utf8(encode_utf8(a)) == decode_utf8(encode_utf8(b)));
    }
}

/// Whether two byte slices hold the same bytes.
fn same_bytes(x: &[u8], y: &[u8]) -> (r: bool)
    ensures
        r == (x@ == y@),
{
    if x.len() != y.len() {
        return false;
    }
    let mut i: usize = 0;
    while i < x.len()
        invariant
            x@.len() == y@.len(),
            i <= x@.len(),
            x@.subrange(0, i as int) == y@.subrange(0, i as int),
        decreases x@.len() - i,
    {
        if x[i] != y[i] {
            return false;
        }
        assert(x@.subrange(0, i + 1) =~= x@.subrange(0, i as int).push(x@[i as int]));
        assert(y@.subrange(0, i + 1) =~= y@.subrange(0, i as int).push(y@[i as int]));
        i = i + 1;
    }
    assert(x@ =~= x@.subrange(0, i as int));
    assert(y@ =~= y@.subrange(0, i as int));
    true
}

/// Whether two pieces of text hold the same bytes, which is to hold the same
/// characters.
pub fn equal(a: &str, b: &str) -> (r: bool)
    ensures
        r == (a.spec_bytes() == b.spec_bytes()),
        r == (a@ == b@),
{
    proof {
        lemma_bytes_determine_text(a@, b@);
    }
    same_bytes(a.as_bytes(), b.as_bytes())
}

/// The number of bytes of the white-space character that begins at `from`,
/// looking no further than `to`.
fn space_width_at(bytes: &[u8], from: usize, to: usize) -> (w: usize)
    requires
        from <= to <= bytes@.len(),
    ensures
        w == space_at_front(bytes@.subrange(from as int, to as int)),
        from + w <= to,
{
    let ghost s = bytes@.subrange(from as int, to as int);
    let left: usize = to - from;
    if left == 0 {
        return 0;
    }
    let a: u8 = bytes[from];
    assert(s[0] == a);
    if a == 0x20 || (0x09 <= a && a <= 0x0d) {
        return 1;
    }
    if left < 2 {
        return 0;
    }
    let b: u8 = bytes[from + 1];
    assert(s[1] == b);
    if a == 0xc2 && (b == 0x85 || b == 0xa0) {
        return 2;
    }
    if left < 3 {
        return 0;
    }
    let c: u8 = bytes[from + 2];
    assert(s[2] == c);
    if (a == 0xe1 && b == 0x9a && c == 0x80) || (a == 0xe2 && b == 0x80 && ((0x80 <= c && c
        <= 0x8a) || c == 0xa8 || c == 0xa9 || c == 0xaf)) || (a == 0xe2 && b == 0x81 && c
        == 0x9f) || (a == 0xe3 && b == 0x80 && c == 0x80) {
        return 3;
    }
    0
}

/// The number of bytes of the white-space character that ends at `to`, looking
/// no further back than `from`.
fn space_width_before(bytes: &[u8], from: usize, to: usize) -> (w: usize)
    requires
        from <= to <= bytes@.len(),
    ensures
        w == space_at_back(bytes@.subrange(from as int, to as int)),
        from + w <= to,
{
    let ghost s = bytes@.subrange(from as int, to as int);
    let left: usize = to - from;
    if left == 0 {
        return 0;
    }
    let c: u8 = bytes[to - 1];
    assert(s[left - 1] == c);
    if c == 0x20 || (0x09 <= c && c <= 0x0d) {
        return 1;
    }
    if left < 2 {
        return 0;
    }
    let b: u8 = bytes[to - 2];
    assert(s[left - 2] == b);
    if b == 0xc2 && (c == 0x85 || c == 0xa0) {
        return 2;
    }
    if left < 3 {
        return 0;
    }
    let a: u8 = bytes[to - 3];
    assert(s[left - 3] == a);
    if (a == 0xe1 && b == 0x9a && c == 0x80) || (a == 0xe2 && b == 0x80 && ((0x80 <= c && c
        <= 0x8a) || c == 0xa8 || c == 0xa9 || c == 0xaf)) || (a == 0xe2 && b == 0x81 && c
        == 0x9f) || (a == 0xe3 && b == 0x80 && c == 0x80) {
        return 3;
    }
    0
}

/// Where the white space at the front of `s` ends: a boundary.
fn leading_space_end(s: &str) -> (i: usize)
    ensures
        i == leading_space(s.spec_bytes()),
        i <= s.spec_bytes().len(),
        is_char_boundary(s.spec_bytes(), i as int),
{
    let bytes = s.as_bytes();
    let n: usize = bytes.len();
    let mut i: usize = 0;
    proof {
        is_char_boundary_start_end_of_seq(bytes@);
        assert(bytes@.skip(0) =~= bytes@);
    }
    loop
        invariant
            bytes@ == s.spec_bytes(),
            valid_utf8(bytes@),
            n == bytes@.len(),
            i <= n,
            is_char_boundary(bytes@, i as int),
            leading_space(bytes@) == i + leading_space(bytes@.skip(i as int)),
        decreases n - i,
    {
        let w: usize = space_width_at(bytes, i, n);
        proof {
            assert(bytes@.subrange(i as int, n as int) =~= bytes@.skip(i as int));
            if w != 0 {
                lemma_next_boundary(bytes@, i as int);
                assert(bytes@.skip(i as int).skip(w as int) =~= bytes@.skip(i + w));
            }
        }
        if w == 0 {
            return i;
        }
        i = i + w;
    }
}

/// Where the white space at the back of `s` begins, looking no further back
/// than the boundary `from`: a boundary.
fn trailing_space_start(s: &str, from: usize) -> (j: usize)
    requires
        from <= s.spec_bytes().len(),
        is_char_boundary(s.spec_bytes(), from as int),
    ensures
        from <= j <= s.spec_bytes().len(),
        s.spec_bytes().len() - j == trailing_space(s.spec_bytes().skip(from as int)),
        is_char_boundary(s.spec_bytes(), j as int),
{
    let bytes = s.as_bytes();
    let n: usize = bytes.len();
    let mut j: usize = n;
    proof {
        is_char_boundary_start_end_of_seq(bytes@);
        assert(bytes@.subrange(from as int, n as int) =~= bytes@.skip(from as int));
    }
    loop
        invariant
            bytes@ == s.spec_bytes(),
            valid_utf8(bytes@),
            n == bytes@.len(),
            from <= j <= n,
            is_char_boundary(bytes@, j as int),
            trailing_space(bytes@.skip(from as int)) == (n - j) + trailing_space(
                bytes@.subrange(from as int, j as int),
            ),
        decreases j,
    {
        let w: usize = space_width_before(bytes, from, j);
        proof {
            let part = bytes@.subrange(from as int, j as int);
            if w != 0 {
                assert(part.take(part.len() - w) =~= bytes@.subrange(from as int, j - w));
                assert(part[part.len() - w] == bytes@[j - w]);
                lemma_boundary_at(bytes@, j - w);
            }
        }
        if w == 0 {
            return j;
        }
        j = j - w;
    }
}

/// `s` without the white space it begins with.
pub fn trim_start<'a>(s: &'a str) -> (r: &'a str)
    ensures
        r.spec_bytes() == spec_trim_start(s.spec_bytes()),
        r@ == trim_start_chars(s@),
{
    let i: usize = leading_space_end(s);
    let (_, rest) = s.split_at(i);
    proof {
        assert(rest.spec_bytes() =~= s.spec_bytes().skip(i as int));
        lemma_trim_start(s@);
        lemma_bytes_determine_text(rest@, trim_start_chars(s@));
    }
    rest
}

/// `s` without the white space at either end.
pub fn trim<'a>(s: &'a str) -> (r: &'a str)
    ensures
        r.spec_bytes() == spec_trim(s.spec_bytes()),
        r@ == trim_chars(s@),
{
    let i: usize = leading_space_end(s);
    let j: usize = trailing_space_start(s, i);
    proof {
        let t = s.spec_bytes().skip(i as int);
        assert(t.take(t.len() - trailing_space(t)) =~= s.spec_bytes().subrange(
            i as int,
            j as int,
        ));
    }
    let r = slice(s, i, j);
    proof {
        lemma_trim(s@);
        lemma_bytes_determine_text(r@, trim_chars(s@));
    }
    r
}

/// Whether `s` begins with the bytes of `prefix`.
pub fn starts_with(s: &str, prefix: &str) -> (r: bool)
    ensures
        r == prefix.spec_bytes().is_prefix_of(s.spec_bytes()),
{
    let x = s.as_bytes();
    let p = prefix.as_bytes();
    if p.len() > x.len() {
        return false;
    }
    let mut i: usize = 0;
    while i < p.len()
        invariant
            x@ == s.spec_bytes(),
            p@ == prefix.spec_bytes(),
            p@.len() <= x@.len(),
            i <= p@.len(),
            x@.subrange(0, i as int) == p@.subrange(0, i as int),
        decreases p@.len() - i,
    {
        if x[i] != p[i] {
            assert(x@.subrange(0, p@.len() as int)[i as int] != p@[i as int]);
            return false;
        }
        assert(x@.subrange(0, i + 1) =~= x@.subrange(0, i as int).push(x@[i as int]));
        assert(p@.subrange(0, i + 1) =~= p@.subrange(0, i as int).push(p@[i as int]));
        i = i + 1;
    }
    assert(p@ =~= p@.subrange(0, i as int));
    true
}

/// What follows `prefix` in a piece of text that begins with it.
pub fn after_prefix<'a>(s: &'a str, prefix: &str) -> (r: &'a str)
    requires
        prefix.spec_bytes().is_prefix_of(s.spec_bytes()),
    ensures
        r.spec_bytes() == s.spec_bytes().skip(prefix.spec_bytes().len() as int),
{
    let n: usize = prefix.as_bytes().len();
    proof {
        is_char_boundary_start_end_of_seq(s.spec_bytes());
        assert(s.spec_bytes().subrange(0, n as int) == prefix.spec_bytes());
        lemma_boundary_after_part(s.spec_bytes(), 0, n as int);
    }
    let (_, rest) = s.split_at(n);
    assert(rest.spec_bytes() =~= s.spec_bytes().skip(n as int));
    rest
}

/// The first position at which a white-space character begins: a boundary.
pub fn find_space(s: &str) -> (r: Option<usize>)
    ensures
        match r {
            Some(i) => first_space(s.spec_bytes()) == Some(i as int) && i < s.spec_bytes().len()
                && is_char_boundary(s.spec_bytes(), i as int),
            None => first_space(s.spec_bytes()) is None,
        },
{
    let bytes = s.as_bytes();
    let n: usize = bytes.len();
    let mut i: usize = 0;
    while i < n
        invariant
            bytes@ == s.spec_bytes(),
            n == bytes@.len(),
            i <= n,
            first_space(bytes@) == first_space_from(bytes@, i as int),
        decreases n - i,
    {
        let w: usize = space_width_at(bytes, i, n);
        assert(bytes@.subrange(i as int, n as int) =~= bytes@.skip(i as int));
        if w != 0 {
            proof {
                assert(bytes@.skip(i as int)[0] == bytes@[i as int]);
                lemma_boundary_at(bytes@, i as int);
            }
            return Some(i);
        }
        i = i + 1;
    }
    None
}

/// Whether `pattern` occurs in `bytes` at `i`.
fn matches_at(bytes: &[u8], pattern: &[u8], i: usize) -> (r: bool)
    requires
        i + pattern@.len() <= bytes@.len(),
    ensures
        r == (bytes@.subrange(i as int, i + pattern@.len()) == pattern@),
{
    let m: usize = pattern.len();
    let n: usize = bytes.len();
    let ghost part = bytes@.subrange(i as int, i + m);
    let mut k: usize = 0;
    while k < m
        invariant
            m == pattern@.len(),
            n == bytes@.len(),
            i + m <= n,
            part == bytes@.subrange(i as int, i + m),
            k <= m,
            part.subrange(0, k as int) == pattern@.subrange(0, k as int),
        decreases m - k,
    {
        if bytes[i + k] != pattern[k] {
            assert(part[k as int] != pattern@[k as int]);
            return false;
        }
        assert(part.subrange(0, k + 1) =~= part.subrange(0, k as int).push(part[k as int]));
        assert(pattern@.subrange(0, k + 1) =~= pattern@.subrange(0, k as int).push(
            pattern@[k as int],
        ));
        k = k + 1;
    }
    assert(part =~= part.subrange(0, m as int));
    assert(pattern@ =~= pattern@.subrange(0, m as int));
    true
}

/// The first position at which `pattern` occurs: a boundary, as is the
/// position behind the occurrence.
pub fn find(s: &str, pattern: &str) -> (r: Option<usize>)
    ensures
        match r {
            Some(i) => {
                &&& first_match(s.spec_bytes(), pattern.spec_bytes()) == Some(i as int)
                &&& i + pattern.spec_bytes().len() <= s.spec_bytes().len()
                &&& is_char_boundary(s.spec_bytes(), i as int)
                &&& is_char_boundary(s.spec_bytes(), i + pattern.spec_bytes().len())
            },
            None => first_match(s.spec_bytes(), pattern.spec_bytes()) is None,
        },
{
    let bytes = s.as_bytes();
    let p = pattern.as_bytes();
    let n: usize = bytes.len();
    let m: usize = p.len();
    if m > n {
        return None;
    }
    if m == 0 {
        proof {
            is_char_boundary_start_end_of_seq(bytes@);
            assert(bytes@.subrange(0, 0) =~= p@);
        }
        return Some(0);
    }
    let mut i: usize = 0;
    while i <= n - m
        invariant
            bytes@ == s.spec_bytes(),
            p@ == pattern.spec_bytes(),
            valid_utf8(bytes@),
            valid_utf8(p@),
            n == bytes@.len(),
            m == p@.len(),
            0 < m <= n,
            i <= n - m + 1,
            first_match(bytes@, p@) == first_match_from(bytes@, p@, i as int),
        decreases n - m + 1 - i,
    {
        if matches_at(bytes, p, i) {
            proof {
                lemma_first_byte_leads(p@);
                assert(bytes@.subrange(i as int, i + m)[0] == bytes@[i as int]);
                lemma_boundary_at(bytes@, i as int);
                lemma_boundary_after_part(bytes@, i as int, i + m);
            }
            return Some(i);
        }
        i = i + 1;
    }
    None
}

} // verus!
