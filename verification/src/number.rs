//! Recognises the text of integers and of floating-point numbers.
use vstd::prelude::*;
use vstd::string::StringSliceAdditionalSpecFns;

verus! {

pub const PLUS: u8 = 0x2b;

pub const MINUS: u8 = 0x2d;

pub const DOT: u8 = 0x2e;

pub const ZERO: u8 = 0x30;

pub const NINE: u8 = 0x39;

pub const LOWER_E: u8 = 0x65;

/// The largest integer that a value may hold.
pub const LARGEST: u128 = 0x7fff_ffff_ffff_ffff;

/// A decimal digit.
pub open spec fn is_digit(b: u8) -> bool {
    ZERO <= b && b <= NINE
}

/// A sign.
pub open spec fn is_sign(b: u8) -> bool {
    b == PLUS || b == MINUS
}

/// Whether every byte is a decimal digit.
pub open spec fn all_digits(s: Seq<u8>) -> bool {
    forall|i: int| 0 <= i < s.len() ==> is_digit(#[trigger] s[i])
}

/// The number that a row of decimal digits stands for.
pub open spec fn decimal_value(s: Seq<u8>) -> nat
    decreases s.len(),
{
    if s.len() == 0 {
        0
    } else {
        decimal_value(s.drop_last()) * 10 + (s.last() - ZERO) as nat
    }
}

/// The text of an integer of 64 bits: a sign if any, then one digit or more,
/// of a value from -2^63 to 2^63 - 1.
pub open spec fn spec_is_integer(s: Seq<u8>) -> bool {
    let negative = s.len() > 0 && s[0] == MINUS;
    let digits = if s.len() > 0 && is_sign(s[0]) {
        s.skip(1)
    } else {
        s
    };
    &&& digits.len() > 0
    &&& all_digits(digits)
    &&& decimal_value(digits) <= (if negative {
        LARGEST + 1
    } else {
        LARGEST as int
    })
}

/// A letter in lower case; any other byte as it is.
pub open spec fn lower(b: u8) -> u8 {
    if 0x41 <= b && b <= 0x5a {
        (b + 0x20) as u8
    } else {
        b
    }
}

/// Text in lower case.
pub open spec fn lowered(s: Seq<u8>) -> Seq<u8> {
    s.map_values(|b: u8| lower(b))
}

/// Where the row of digits that begins at `from` ends.
pub open spec fn digits_end(s: Seq<u8>, from: int) -> int
    decreases s.len() - from,
{
    if 0 <= from < s.len() && is_digit(s[from]) {
        digits_end(s, from + 1)
    } else {
        from
    }
}

/// Whether an exponent stands from `from` to the end: `e` or `E`, a sign if
/// any, then one digit or more.
pub open spec fn is_exponent(s: Seq<u8>, from: int) -> bool {
    &&& 0 <= from < s.len()
    &&& lower(s[from]) == LOWER_E
    &&& {
        let digits = if from + 1 < s.len() && is_sign(s[from + 1]) {
            from + 2
        } else {
            from + 1
        };
        digits < s.len() && digits_end(s, digits) == s.len()
    }
}

/// A number without a sign: digits with at most one point among them or at
/// either end, one digit at least, and an exponent if any.
pub open spec fn is_number(s: Seq<u8>) -> bool {
    let whole = digits_end(s, 0);
    let pointed = whole < s.len() && s[whole] == DOT;
    let end = if pointed {
        digits_end(s, whole + 1)
    } else {
        whole
    };
    let digits = if pointed {
        end - 1
    } else {
        end
    };
    &&& digits > 0
    &&& (end == s.len() || is_exponent(s, end))
}

/// The text of a floating-point number: a sign if any, then a number, or in
/// letters of any case `inf`, `infinity` or `nan`.
pub open spec fn spec_is_float(s: Seq<u8>) -> bool {
    let rest = if s.len() > 0 && is_sign(s[0]) {
        s.skip(1)
    } else {
        s
    };
    ||| lowered(rest) == "inf".spec_bytes()
    ||| lowered(rest) == "infinity".spec_bytes()
    ||| lowered(rest) == "nan".spec_bytes()
    ||| is_number(rest)
}

/// A row of digits stands for no less than any row it begins with.
pub proof fn lemma_decimal_value_grows(s: Seq<u8>, k: int)
    requires
        0 <= k <= s.len(),
        all_digits(s),
    ensures
        decimal_value(s.take(k)) <= decimal_value(s),
    decreases s.len() - k,
{
    if k < s.len() {
        lemma_decimal_value_grows(s, k + 1);
        assert(s.take(k + 1).drop_last() =~= s.take(k));
        assert(is_digit(s[k]));
        assert(s.take(k + 1).last() == s[k]);
    } else {
        assert(s.take(k) =~= s);
    }
}

/// A row of digits ends where the text ends.
pub proof fn lemma_digits_end(s: Seq<u8>, from: int)
    requires
        0 <= from <= s.len(),
        all_digits(s),
    ensures
        digits_end(s, from) == s.len(),
    decreases s.len() - from,
{
    if from < s.len() {
        lemma_digits_end(s, from + 1);
    }
}

/// The text of an integer is the text of a floating-point number.
pub proof fn lemma_integer_is_float(s: Seq<u8>)
    requires
        spec_is_integer(s),
    ensures
        spec_is_float(s),
{
    let rest = if s.len() > 0 && is_sign(s[0]) {
        s.skip(1)
    } else {
        s
    };
    lemma_digits_end(rest, 0);
    assert(is_digit(rest[0]));
    assert(is_number(rest));
}

/// Whether `value` is the text of an integer of 64 bits.
pub fn is_integer(value: &str) -> (r: bool)
    ensures
        r == spec_is_integer(value.spec_bytes()),
{
    let bytes = value.as_bytes();
    let n: usize = bytes.len();
    if n == 0 {
        return false;
    }
    let negative: bool = bytes[0] == MINUS;
    let start: usize = if bytes[0] == PLUS || bytes[0] == MINUS {
        1
    } else {
        0
    };
    if start == n {
        return false;
    }
    let limit: u128 = if negative {
        LARGEST + 1
    } else {
        LARGEST
    };
    let ghost digits = bytes@.skip(start as int);
    assert(bytes@.skip(0) =~= bytes@);
    assert(digits.take(0) =~= Seq::empty());
    let mut total: u128 = 0;
    let mut i: usize = start;
    while i < n
        invariant
            bytes@ == value.spec_bytes(),
            n == bytes@.len(),
            start <= i <= n,
            digits == bytes@.skip(start as int),
            digits == (if is_sign(bytes@[0]) {
                bytes@.skip(1)
            } else {
                bytes@
            }),
            negative == (bytes@[0] == MINUS),
            limit == (if negative {
                LARGEST + 1
            } else {
                LARGEST as int
            }),
            all_digits(digits.take(i - start)),
            total == decimal_value(digits.take(i - start)),
            total <= limit,
        decreases n - i,
    {
        let b: u8 = bytes[i];
        proof {
            assert(digits[i - start] == b);
            assert(digits.take(i - start + 1).drop_last() =~= digits.take(i - start));
            assert(digits.take(i - start + 1).last() == b);
        }
        if b < ZERO || b > NINE {
            return false;
        }
        total = total * 10 + (b - ZERO) as u128;
        if total > limit {
            proof {
                if all_digits(digits) {
                    lemma_decimal_value_grows(digits, i - start + 1);
                }
            }
            return false;
        }
        i = i + 1;
    }
    assert(digits.take(n - start) =~= digits);
    true
}

/// Where the row of digits that begins at `from` ends.
fn skip_digits(bytes: &[u8], from: usize) -> (r: usize)
    requires
        from <= bytes@.len(),
    ensures
        r == digits_end(bytes@, from as int),
        from <= r <= bytes@.len(),
{
    let n: usize = bytes.len();
    let mut i: usize = from;
    while i < n && ZERO <= bytes[i] && bytes[i] <= NINE
        invariant
            n == bytes@.len(),
            from <= i <= n,
            digits_end(bytes@, from as int) == digits_end(bytes@, i as int),
        decreases n - i,
    {
        i = i + 1;
    }
    i
}

/// Whether `bytes` is `word` but for the case of its letters.
fn is_word(bytes: &[u8], word: &str) -> (r: bool)
    ensures
        r == (lowered(bytes@) == word.spec_bytes()),
{
    let w = word.as_bytes();
    let n: usize = bytes.len();
    if n != w.len() {
        return false;
    }
    let mut i: usize = 0;
    while i < n
        invariant
            w@ == word.spec_bytes(),
            n == bytes@.len(),
            n == w@.len(),
            i <= n,
            forall|k: int| 0 <= k < i ==> lower(#[trigger] bytes@[k]) == w@[k],
        decreases n - i,
    {
        let b: u8 = bytes[i];
        let l: u8 = if 0x41 <= b && b <= 0x5a {
            b + 0x20
        } else {
            b
        };
        if l != w[i] {
            assert(lowered(bytes@)[i as int] != w@[i as int]);
            return false;
        }
        i = i + 1;
    }
    assert(lowered(bytes@) =~= w@);
    true
}

/// Whether an exponent stands from `from` to the end of `bytes`.
fn exponent(bytes: &[u8], from: usize) -> (r: bool)
    requires
        from < bytes@.len(),
    ensures
        r == is_exponent(bytes@, from as int),
{
    let n: usize = bytes.len();
    if bytes[from] != LOWER_E && bytes[from] != 0x45 {
        return false;
    }
    let digits: usize = if from + 1 < n && (bytes[from + 1] == PLUS || bytes[from + 1] == MINUS) {
        from + 2
    } else {
        from + 1
    };
    digits < n && skip_digits(bytes, digits) == n
}

/// Whether `bytes` is a number without a sign.
fn number(bytes: &[u8]) -> (r: bool)
    ensures
        r == is_number(bytes@),
{
    let n: usize = bytes.len();
    let whole: usize = skip_digits(bytes, 0);
    let pointed: bool = whole < n && bytes[whole] == DOT;
    let end: usize = if pointed {
        skip_digits(bytes, whole + 1)
    } else {
        whole
    };
    let digits: usize = if pointed {
        end - 1
    } else {
        end
    };
    digits > 0 && (end == n || exponent(bytes, end))
}

/// Whether `value` is the text of a floating-point number.
pub fn is_float(value: &str) -> (r: bool)
    ensures
        r == spec_is_float(value.spec_bytes()),
{
    let bytes = value.as_bytes();
    let n: usize = bytes.len();
    let start: usize = if n > 0 && (bytes[0] == PLUS || bytes[0] == MINUS) {
        1
    } else {
        0
    };
    let rest = vstd::slice::slice_subrange(bytes, start, n);
    assert(rest@ =~= bytes@.skip(start as int));
    assert(bytes@.skip(0) =~= bytes@);
    is_word(rest, "inf") || is_word(rest, "infinity") || is_word(rest, "nan") || number(rest)
}

} // verus!
