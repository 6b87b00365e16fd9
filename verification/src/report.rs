//! Builds the text of messages.
use vstd::prelude::*;

verus! {

/// The character of a decimal digit.
pub open spec fn digit_char(d: nat) -> char {
    ((0x30 + d) as u8) as char
}

/// A number written in decimal digits.
pub open spec fn decimal(n: nat) -> Seq<char>
    decreases n,
{
    if n < 10 {
        seq![digit_char(n)]
    } else {
        decimal(n / 10).push(digit_char(n % 10))
    }
}

/// `String::push` of the standard library appends the character to the end
/// of the string and changes nothing else of it.
pub assume_specification[ String::push ](s: &mut String, ch: char)
    ensures
        final(s)@ == old(s)@.push(ch),
;

/// Appends `n` in decimal digits.
pub fn push_decimal(s: &mut String, n: usize)
    ensures
        final(s)@ == old(s)@ + decimal(n as nat),
    decreases n,
{
    if n >= 10 {
        push_decimal(s, n / 10);
    }
    let digit: u8 = (n % 10) as u8;
    s.push((0x30 + digit) as char);
    proof {
        let d = (n % 10) as nat;
        assert((0x30 + digit) as char == digit_char(d));
        if n >= 10 {
            assert(old(s)@ + decimal((n / 10) as nat).push(digit_char(d)) =~= (old(s)@ + decimal(
                (n / 10) as nat,
            )).push(digit_char(d)));
        } else {
            assert(old(s)@ + seq![digit_char(d)] =~= old(s)@.push(digit_char(d)));
        }
    }
}

} // verus!
