//! Checks expanded values against declared types.
use crate::number::{is_float, is_integer, spec_is_float, spec_is_integer};
use crate::text::{bytes_of, equal, lemma_bytes_determine_text};
use crate::types::{Primitive, TypeError};
use vstd::prelude::*;
use vstd::string::{StringExecFns, StringSliceAdditionalSpecFns};

verus! {

pub const OPEN_BRACKET: u8 = 0x5b;

pub const CLOSE_BRACKET: u8 = 0x5d;

/// Text that has the form of an array: it begins with `[` and ends with `]`.
pub open spec fn spec_is_array(s: Seq<u8>) -> bool {
    s.len() > 0 && s[0] == OPEN_BRACKET && s[s.len() - 1] == CLOSE_BRACKET
}

/// The truth value that a word stands for, if it stands for one.
pub open spec fn spec_boolean(s: Seq<u8>) -> Option<bool> {
    if s == "true".spec_bytes() || s == "1".spec_bytes() || s == "y".spec_bytes() {
        Some(true)
    } else if s == "false".spec_bytes() || s == "0".spec_bytes() || s == "n".spec_bytes() {
        Some(false)
    } else {
        None
    }
}

/// The normal form of a truth value.
pub open spec fn boolean_word(b: bool) -> Seq<char> {
    if b {
        "true"@
    } else {
        "false"@
    }
}

/// Whether `value` has the form of an array.
pub fn is_array(value: &str) -> (r: bool)
    ensures
        r == spec_is_array(value.spec_bytes()),
{
    let bytes = value.as_bytes();
    let n: usize = bytes.len();
    n > 0 && bytes[0] == OPEN_BRACKET && bytes[n - 1] == CLOSE_BRACKET
}

/// The normal form of the truth value that `value` stands for: `true` for
/// `true`, `1` and `y`, `false` for `false`, `0` and `n`.
pub fn is_boolean(value: &str) -> (r: Result<&str, ()>)
    ensures
        match r {
            Ok(word) => spec_boolean(value.spec_bytes()) is Some && word@ == boolean_word(
                spec_boolean(value.spec_bytes())->0,
            ),
            Err(_) => spec_boolean(value.spec_bytes()) is None,
        },
{
    if equal(value, "true") || equal(value, "1") || equal(value, "y") {
        Ok("true")
    } else if equal(value, "false") || equal(value, "0") || equal(value, "n") {
        Ok("false")
    } else {
        Err(())
    }
}

/// An expanded value: one string, or an array of strings.
#[derive(Debug, PartialEq)]
pub enum ReturnValue {
    Str(String),
    Vector(Vec<String>),
}

/// An expanded value as contracts speak of it.
pub enum ReturnValueView {
    Str(Seq<char>),
    Vector(Seq<Seq<char>>),
}

/// The characters of each string of a sequence.
pub open spec fn chars_of_each(strings: Seq<String>) -> Seq<Seq<char>> {
    strings.map_values(|s: String| s@)
}

impl View for ReturnValue {
    type V = ReturnValueView;

    open spec fn view(&self) -> ReturnValueView {
        match self {
            ReturnValue::Str(value) => ReturnValueView::Str(value@),
            ReturnValue::Vector(values) => ReturnValueView::Vector(chars_of_each(values@)),
        }
    }
}

/// The outcome of a check as contracts speak of it.
pub open spec fn outcome_view(outcome: Result<ReturnValue, TypeError>) -> Result<
    ReturnValueView,
    TypeError,
> {
    match outcome {
        Ok(value) => Ok(value@),
        Err(error) => Err(error),
    }
}

/// What expands the text of a value: variables, commands, braces and the like.
pub trait Expander {
    /// The words that `text` expands to.
    fn expand(&self, text: &str) -> Vec<String>;
}

/// The words in a row, with one space between each two.
pub open spec fn joined(words: Seq<Seq<char>>) -> Seq<char>
    decreases words.len(),
{
    if words.len() == 0 {
        Seq::empty()
    } else if words.len() == 1 {
        words[0]
    } else {
        joined(words.drop_last()) + seq![' '] + words.last()
    }
}

/// Whether each word stands for a truth value.
pub open spec fn all_boolean(words: Seq<Seq<char>>) -> bool {
    forall|i: int| 0 <= i < words.len() ==> spec_boolean(bytes_of(#[trigger] words[i])) is Some
}

/// Whether each word is the text of an integer.
pub open spec fn all_integer(words: Seq<Seq<char>>) -> bool {
    forall|i: int| 0 <= i < words.len() ==> spec_is_integer(bytes_of(#[trigger] words[i]))
}

/// Whether each word is the text of a floating-point number.
pub open spec fn all_float(words: Seq<Seq<char>>) -> bool {
    forall|i: int| 0 <= i < words.len() ==> spec_is_float(bytes_of(#[trigger] words[i]))
}

/// Each word in the normal form of its truth value; a word that stands for
/// none ends up as `false`, but `all_boolean` says when there is none.
pub open spec fn normalized(words: Seq<Seq<char>>) -> Seq<Seq<char>> {
    words.map_values(|word: Seq<char>| boolean_word(spec_boolean(bytes_of(word)) == Some(true)))
}

/// The words in the normal form of their truth values, up to the first that
/// stands for none; from there on as they are.
pub open spec fn normalized_while_boolean(words: Seq<Seq<char>>) -> Seq<Seq<char>>
    decreases words.len(),
{
    if words.len() == 0 {
        words
    } else {
        match spec_boolean(bytes_of(words[0])) {
            Some(b) => seq![boolean_word(b)] + normalized_while_boolean(words.drop_first()),
            None => words,
        }
    }
}

/// The value that a check against `expected` returns for the expanded value
/// `value`, or the error. `Any` takes either form; every other type takes the
/// form it names, and its own test on each string.
pub open spec fn spec_check(value: ReturnValueView, expected: Primitive) -> Result<
    ReturnValueView,
    TypeError,
> {
    let bad = Err::<ReturnValueView, TypeError>(TypeError::BadValue(expected));
    match value {
        ReturnValueView::Str(word) => match expected {
            Primitive::Any | Primitive::Str => Ok(value),
            Primitive::Boolean => match spec_boolean(bytes_of(word)) {
                Some(b) => Ok(ReturnValueView::Str(boolean_word(b))),
                None => bad,
            },
            Primitive::Integer => if spec_is_integer(bytes_of(word)) {
                Ok(value)
            } else {
                bad
            },
            Primitive::Float => if spec_is_float(bytes_of(word)) {
                Ok(value)
            } else {
                bad
            },
            _ => bad,
        },
        ReturnValueView::Vector(words) => match expected {
            Primitive::Any | Primitive::AnyArray | Primitive::StrArray => Ok(value),
            Primitive::BooleanArray => if all_boolean(words) {
                Ok(ReturnValueView::Vector(normalized(words)))
            } else {
                bad
            },
            Primitive::IntegerArray => if all_integer(words) {
                Ok(value)
            } else {
                bad
            },
            Primitive::FloatArray => if all_float(words) {
                Ok(value)
            } else {
                bad
            },
            _ => bad,
        },
    }
}

/// The normal form of a truth value stands for that truth value.
pub proof fn lemma_boolean_word_is_boolean(b: bool)
    ensures
        spec_boolean(bytes_of(boolean_word(b))) == Some(b),
{
    reveal_strlit("true");
    reveal_strlit("false");
    reveal_strlit("1");
    reveal_strlit("y");
    lemma_bytes_determine_text("false"@, "true"@);
    lemma_bytes_determine_text("false"@, "1"@);
    lemma_bytes_determine_text("false"@, "y"@);
}

/// A value that has passed a check passes it again, and unchanged.
pub proof fn lemma_check_is_stable(value: ReturnValueView, expected: Primitive)
    requires
        spec_check(value, expected) is Ok,
    ensures
        spec_check(spec_check(value, expected)->Ok_0, expected) == spec_check(value, expected),
{
    match value {
        ReturnValueView::Str(word) => {
            if expected is Boolean {
                lemma_boolean_word_is_boolean(spec_boolean(bytes_of(word))->0);
            }
        },
        ReturnValueView::Vector(words) => {
            if expected is BooleanArray {
                let once = normalized(words);
                assert forall|i: int| 0 <= i < once.len() implies spec_boolean(
                    bytes_of(#[trigger] once[i]),
                ) == Some(spec_boolean(bytes_of(words[i])) == Some(true)) by {
                    lemma_boolean_word_is_boolean(spec_boolean(bytes_of(words[i])) == Some(true));
                }
                assert(normalized(once) =~= once);
            }
        },
    }
}

/// The normal form of the truth value that a string stands for.
fn is_boolean_string(value: &ReturnValue) -> (r: Result<&str, ()>)
    requires
        value is Str,
    ensures
        match r {
            Ok(word) => spec_boolean(bytes_of(value->Str_0@)) is Some && word@ == boolean_word(
                spec_boolean(bytes_of(value->Str_0@))->0,
            ),
            Err(_) => spec_boolean(bytes_of(value->Str_0@)) is None,
        },
{
    match value {
        ReturnValue::Str(value) => is_boolean(value.as_str()),
        ReturnValue::Vector(_) => Err(()),
    }
}

/// The string, if it is the text of an integer.
fn is_integer_string(value: ReturnValue) -> (r: Result<ReturnValue, ()>)
    requires
        value is Str,
    ensures
        match r {
            Ok(same) => same == value && spec_is_integer(bytes_of(value->Str_0@)),
            Err(_) => !spec_is_integer(bytes_of(value->Str_0@)),
        },
{
    let is_ok: bool = match &value {
        ReturnValue::Str(num) => is_integer(num.as_str()),
        ReturnValue::Vector(_) => false,
    };
    if is_ok {
        Ok(value)
    } else {
        Err(())
    }
}

/// The string, if it is the text of a floating-point number.
fn is_float_string(value: ReturnValue) -> (r: Result<ReturnValue, ()>)
    requires
        value is Str,
    ensures
        match r {
            Ok(same) => same == value && spec_is_float(bytes_of(value->Str_0@)),
            Err(_) => !spec_is_float(bytes_of(value->Str_0@)),
        },
{
    let is_ok: bool = match &value {
        ReturnValue::Str(num) => is_float(num.as_str()),
        ReturnValue::Vector(_) => false,
    };
    if is_ok {
        Ok(value)
    } else {
        Err(())
    }
}

/// The array, if each of its strings is the text of an integer.
fn is_integer_array(value: ReturnValue) -> (r: Result<ReturnValue, ()>)
    requires
        value is Vector,
    ensures
        match r {
            Ok(same) => same == value && all_integer(chars_of_each(value->Vector_0@)),
            Err(_) => !all_integer(chars_of_each(value->Vector_0@)),
        },
{
    let is_ok: bool = match &value {
        ReturnValue::Vector(nums) => {
            let mut i: usize = 0;
            let mut all: bool = true;
            while all && i < nums.len()
                invariant
                    i <= nums@.len(),
                    all ==> forall|k: int|
                        0 <= k < i ==> spec_is_integer(
                            bytes_of(#[trigger] chars_of_each(nums@)[k]),
                        ),
                    !all ==> !all_integer(chars_of_each(nums@)),
                decreases nums@.len() - i + (if all { 1int } else { 0int }),
            {
                if is_integer(nums[i].as_str()) {
                    i = i + 1;
                } else {
                    assert(!spec_is_integer(bytes_of(chars_of_each(nums@)[i as int])));
                    all = false;
                }
            }
            all
        },
        ReturnValue::Str(_) => false,
    };
    if is_ok {
        Ok(value)
    } else {
        Err(())
    }
}

/// The array, if each of its strings is the text of a floating-point number.
fn is_float_array(value: ReturnValue) -> (r: Result<ReturnValue, ()>)
    requires
        value is Vector,
    ensures
        match r {
            Ok(same) => same == value && all_float(chars_of_each(value->Vector_0@)),
            Err(_) => !all_float(chars_of_each(value->Vector_0@)),
        },
{
    let is_ok: bool = match &value {
        ReturnValue::Vector(nums) => {
            let mut i: usize = 0;
            let mut all: bool = true;
            while all && i < nums.len()
                invariant
                    i <= nums@.len(),
                    all ==> forall|k: int|
                        0 <= k < i ==> spec_is_float(bytes_of(#[trigger] chars_of_each(nums@)[k])),
                    !all ==> !all_float(chars_of_each(nums@)),
                decreases nums@.len() - i + (if all { 1int } else { 0int }),
            {
                if is_float(nums[i].as_str()) {
                    i = i + 1;
                } else {
                    assert(!spec_is_float(bytes_of(chars_of_each(nums@)[i as int])));
                    all = false;
                }
            }
            all
        },
        ReturnValue::Str(_) => false,
    };
    if is_ok {
        Ok(value)
    } else {
        Err(())
    }
}

/// Puts each string of the array into the normal form of its truth value,
/// up to the first that stands for none, and says whether all stand for one.
fn is_boolean_array(values: &mut ReturnValue) -> (r: bool)
    requires
        *old(values) is Vector,
    ensures
        r == all_boolean(chars_of_each(old(values)->Vector_0@)),
        *final(values) is Vector,
        chars_of_each(final(values)->Vector_0@) == normalized_while_boolean(
            chars_of_each(old(values)->Vector_0@),
        ),
        r ==> chars_of_each(final(values)->Vector_0@) == normalized(
            chars_of_each(old(values)->Vector_0@),
        ),
{
    match values {
        ReturnValue::Vector(values) => normalize_booleans(values),
        ReturnValue::Str(_) => false,
    }
}

/// Puts each string into the normal form of its truth value, up to the first
/// that stands for none, and says whether all stand for one.
fn normalize_booleans(values: &mut Vec<String>) -> (r: bool)
    ensures
        r == all_boolean(chars_of_each(old(values)@)),
        chars_of_each(final(values)@) == normalized_while_boolean(chars_of_each(old(values)@)),
        r ==> chars_of_each(final(values)@) == normalized(chars_of_each(old(values)@)),
{
    let ghost before = chars_of_each(values@);
    let n: usize = values.len();
    let mut i: usize = 0;
    proof {
        assert(before.skip(0) =~= before);
        assert(before.take(0) + normalized_while_boolean(before) =~= normalized_while_boolean(
            before,
        ));
    }
    while i < n
        invariant
            n == values@.len(),
            n == before.len(),
            i <= n,
            before == chars_of_each(old(values)@),
            forall|k: int| 0 <= k < i ==> spec_boolean(bytes_of(#[trigger] before[k])) is Some,
            forall|k: int|
                0 <= k < i ==> #[trigger] chars_of_each(values@)[k] == normalized(before)[k],
            forall|k: int| i <= k < n ==> #[trigger] chars_of_each(values@)[k] == before[k],
            normalized_while_boolean(before) == normalized(before).take(i as int)
                + normalized_while_boolean(before.skip(i as int)),
        decreases n - i,
    {
        let ghost current = chars_of_each(values@);
        let ghost rest = before.skip(i as int);
        proof {
            assert(rest[0] == before[i as int]);
            assert(current[i as int] == before[i as int]);
            assert(rest.drop_first() =~= before.skip(i + 1));
        }
        let boolean: String = match is_boolean(values[i].as_str()) {
            Ok(boolean) => boolean.to_owned(),
            Err(_) => {
                proof {
                    assert(chars_of_each(values@) =~= normalized(before).take(i as int) + rest);
                }
                return false;
            },
        };
        let ghost word = boolean@;
        values.set(i, boolean);
        proof {
            assert(word == normalized(before)[i as int]);
            assert forall|k: int| 0 <= k < n implies #[trigger] chars_of_each(values@)[k] == (if k
                == i {
                word
            } else {
                current[k]
            }) by {}
            assert(normalized(before).take(i + 1) =~= normalized(before).take(i as int).push(
                normalized(before)[i as int],
            ));
            assert(normalized(before).take(i as int) + (seq![normalized(before)[i as int]]
                + normalized_while_boolean(before.skip(i + 1))) =~= normalized(before).take(i + 1)
                + normalized_while_boolean(before.skip(i + 1)));
        }
        i = i + 1;
    }
    proof {
        assert(normalized(before).take(n as int) =~= normalized(before));
        assert(chars_of_each(values@) =~= normalized(before));
        assert(normalized(before) + normalized_while_boolean(before.skip(n as int)) =~= normalized(
            before,
        ));
    }
    true
}

/// The words in a row, with one space between each two.
pub fn join(words: &Vec<String>) -> (r: String)
    ensures
        r@ == joined(chars_of_each(words@)),
{
    let ghost all = chars_of_each(words@);
    let mut row = String::new();
    let mut i: usize = 0;
    proof {
        reveal_strlit(" ");
        assert(all.take(0) =~= Seq::empty());
    }
    while i < words.len()
        invariant
            all == chars_of_each(words@),
            i <= words@.len(),
            row@ == joined(all.take(i as int)),
            " "@ == seq![' '],
        decreases words@.len() - i,
    {
        proof {
            assert(all.take(i + 1).drop_last() =~= all.take(i as int));
            assert(all.take(i + 1).last() == words@[i as int]@);
            if i == 0 {
                assert(Seq::<char>::empty() + words@[0]@ =~= words@[0]@);
            }
        }
        if i > 0 {
            row.append(" ");
        }
        row.append(words[i].as_str());
        i = i + 1;
    }
    assert(all.take(words@.len() as int) =~= all);
    row
}

/// Whether `words` is what `shell` gave when it was asked to expand `value`.
pub open spec fn expanded<E: Expander>(shell: &E, value: &str, words: Vec<String>) -> bool {
    call_ensures(E::expand, (shell, value), words)
}

/// What `value` expands to, as one string: the words that `shell` gives for
/// it, joined with spaces.
fn get_string<E: Expander>(shell: &E, value: &str) -> (r: ReturnValue)
    ensures
        exists|words: Vec<String>| #[trigger]
            expanded(shell, value, words) && r@ == ReturnValueView::Str(
                joined(chars_of_each(words@)),
            ),
{
    let words = shell.expand(value);
    let row = join(&words);
    assert(expanded(shell, value, words));
    ReturnValue::Str(row)
}

/// What `value` expands to, as an array: the words that `shell` gives for
/// it.
fn get_array<E: Expander>(shell: &E, value: &str) -> (r: ReturnValue)
    ensures
        r matches ReturnValue::Vector(words) && expanded(shell, value, words),
{
    ReturnValue::Vector(shell.expand(value))
}

/// Checks the expanded value `value` against the type `expected`. `Any`
/// takes a string and an array; every other type takes the form it names. A
/// truth value is put into its normal form, each of an array's too; an
/// integer and a floating-point number is returned as it was written.
pub fn check_value(value: ReturnValue, expected: Primitive) -> (r: Result<ReturnValue, TypeError>)
    ensures
        outcome_view(r) == spec_check(value@, expected),
{
    let is_array: bool = matches!(value, ReturnValue::Vector(_));
    match expected {
        Primitive::Any => Ok(value),
        Primitive::AnyArray | Primitive::StrArray => if is_array {
            Ok(value)
        } else {
            Err(TypeError::BadValue(expected))
        },
        Primitive::Str => if !is_array {
            Ok(value)
        } else {
            Err(TypeError::BadValue(expected))
        },
        Primitive::Boolean => if !is_array {
            match is_boolean_string(&value) {
                Ok(word) => Ok(ReturnValue::Str(word.to_owned())),
                Err(_) => Err(TypeError::BadValue(expected)),
            }
        } else {
            Err(TypeError::BadValue(expected))
        },
        Primitive::BooleanArray => if is_array {
            let mut values = value;
            if is_boolean_array(&mut values) {
                Ok(values)
            } else {
                Err(TypeError::BadValue(expected))
            }
        } else {
            Err(TypeError::BadValue(expected))
        },
        Primitive::Integer => if !is_array {
            match is_integer_string(value) {
                Ok(value) => Ok(value),
                Err(_) => Err(TypeError::BadValue(expected)),
            }
        } else {
            Err(TypeError::BadValue(expected))
        },
        Primitive::IntegerArray => if is_array {
            match is_integer_array(value) {
                Ok(value) => Ok(value),
                Err(_) => Err(TypeError::BadValue(expected)),
            }
        } else {
            Err(TypeError::BadValue(expected))
        },
        Primitive::Float => if !is_array {
            match is_float_string(value) {
                Ok(value) => Ok(value),
                Err(_) => Err(TypeError::BadValue(expected)),
            }
        } else {
            Err(TypeError::BadValue(expected))
        },
        Primitive::FloatArray => if is_array {
            match is_float_array(value) {
                Ok(value) => Ok(value),
                Err(_) => Err(TypeError::BadValue(expected)),
            }
        } else {
            Err(TypeError::BadValue(expected))
        },
    }
}

/// Whether text of the form `is_array` cannot have the type `expected`,
/// whatever it expands to.
pub open spec fn mismatched(is_array: bool, expected: Primitive) -> bool {
    !(expected is Any) && expected.is_array_type() != is_array
}

/// The expanded value of text of the form `is_array` that expands to `words`:
/// the array of the words, or the words joined to one string.
pub open spec fn shaped(is_array: bool, words: Seq<Seq<char>>) -> ReturnValueView {
    if is_array {
        ReturnValueView::Vector(words)
    } else {
        ReturnValueView::Str(joined(words))
    }
}

/// Checks the text `value` against the type `expected`. Text whose form
/// cannot have the type is refused as it stands, and `shell` is not asked.
/// Other text is handed to `shell` once, whole; what it gives is taken as an
/// array where the text has the form of one and else joined to one string,
/// and is checked as `check_value` does.
pub fn value_check<E: Expander>(shell: &E, value: &str, expected: Primitive) -> (r: Result<
    ReturnValue,
    TypeError,
>)
    ensures
        mismatched(spec_is_array(value.spec_bytes()), expected) ==> r == Err::<
            ReturnValue,
            TypeError,
        >(TypeError::BadValue(expected)),
        !mismatched(spec_is_array(value.spec_bytes()), expected) ==> exists|words: Vec<String>|
            #[trigger] expanded(shell, value, words) && outcome_view(r) == spec_check(
                shaped(spec_is_array(value.spec_bytes()), chars_of_each(words@)),
                expected,
            ),
{
    let is_array: bool = is_array(value);
    let fits: bool = match expected {
        Primitive::Any => true,
        Primitive::AnyArray
        | Primitive::StrArray
        | Primitive::BooleanArray
        | Primitive::IntegerArray
        | Primitive::FloatArray => is_array,
        _ => !is_array,
    };
    if !fits {
        return Err(TypeError::BadValue(expected));
    }
    if is_array {
        let given = get_array(shell, value);
        let ghost words = given->Vector_0;
        let r = check_value(given, expected);
        assert(expanded(shell, value, words));
        r
    } else {
        let given = get_string(shell, value);
        let ghost words = choose|words: Vec<String>| #[trigger]
            expanded(shell, value, words) && given@ == ReturnValueView::Str(
                joined(chars_of_each(words@)),
            );
        let r = check_value(given, expected);
        assert(expanded(shell, value, words));
        r
    }
}

} // verus!
