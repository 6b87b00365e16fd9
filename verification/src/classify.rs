//! Tells what kind of statement a piece of text is, from the text alone.
use crate::machine::is_name_byte;
use crate::splitter::is_invalid;
use crate::text::{
    after_prefix, equal, find, find_space, first_match, first_space, lemma_trim_is_trimmed, slice,
    spec_trim, spec_trim_start, starts_with, trim, trim_start,
};
use vstd::prelude::*;
use vstd::string::StringSliceAdditionalSpecFns;
use vstd::utf8::{encode_utf8_valid_utf8, is_char_boundary_start_end_of_seq};

verus! {

pub const HASH: u8 = 0x23;

/// What a statement is by its text, with the parts of the text that the later
/// stages work on.
#[derive(Clone, Copy, Debug, PartialEq)]
pub enum Form<'a> {
    End,
    Break,
    Continue,
    /// `for`, `match` or `case` with nothing behind it.
    Incomplete,
    /// `let` and the expression behind it.
    Let(&'a str),
    /// `export` and the expression behind it.
    Export(&'a str),
    /// `if` and the command line of its condition.
    If(&'a str),
    Else,
    /// `else if` and the command line of its condition.
    ElseIf(&'a str),
    /// `while` and the command line of its condition.
    While(&'a str),
    /// `for`, the loop variable, and behind `in` the words of the values.
    For { variable: &'a str, values: &'a str },
    /// `for` without a variable or without `in`.
    MalformedFor,
    /// `case` and its value; `None` for `_`.
    Case(Option<&'a str>),
    /// `match` and the expression behind it.
    Match(&'a str),
    /// `fn`, the name, the list of parameters and the description.
    Function { name: &'a str, args: &'a str, description: Option<&'a str> },
    /// `fn` and a name that is none.
    InvalidName(&'a str),
    /// Nothing, or a comment.
    Blank,
    /// Anything else: a command line.
    Pipeline(&'a str),
}

/// A form as contracts speak of it: text as bytes.
pub enum Shape {
    End,
    Break,
    Continue,
    Incomplete,
    Let(Seq<u8>),
    Export(Seq<u8>),
    If(Seq<u8>),
    Else,
    ElseIf(Seq<u8>),
    While(Seq<u8>),
    For { variable: Seq<u8>, values: Seq<u8> },
    MalformedFor,
    Case(Option<Seq<u8>>),
    Match(Seq<u8>),
    Function { name: Seq<u8>, args: Seq<u8>, description: Option<Seq<u8>> },
    InvalidName(Seq<u8>),
    Blank,
    Pipeline(Seq<u8>),
}

/// The bytes of a piece of text that may be missing.
pub open spec fn bytes_of_part(part: Option<&str>) -> Option<Seq<u8>> {
    match part {
        Some(text) => Some(text.spec_bytes()),
        None => None,
    }
}

impl<'a> View for Form<'a> {
    type V = Shape;

    open spec fn view(&self) -> Shape {
        match self {
            Form::End => Shape::End,
            Form::Break => Shape::Break,
            Form::Continue => Shape::Continue,
            Form::Incomplete => Shape::Incomplete,
            Form::Let(text) => Shape::Let(text.spec_bytes()),
            Form::Export(text) => Shape::Export(text.spec_bytes()),
            Form::If(text) => Shape::If(text.spec_bytes()),
            Form::Else => Shape::Else,
            Form::ElseIf(text) => Shape::ElseIf(text.spec_bytes()),
            Form::While(text) => Shape::While(text.spec_bytes()),
            Form::For { variable, values } => Shape::For {
                variable: variable.spec_bytes(),
                values: values.spec_bytes(),
            },
            Form::MalformedFor => Shape::MalformedFor,
            Form::Case(value) => Shape::Case(bytes_of_part(*value)),
            Form::Match(text) => Shape::Match(text.spec_bytes()),
            Form::Function { name, args, description } => Shape::Function {
                name: name.spec_bytes(),
                args: args.spec_bytes(),
                description: bytes_of_part(*description),
            },
            Form::InvalidName(name) => Shape::InvalidName(name.spec_bytes()),
            Form::Blank => Shape::Blank,
            Form::Pipeline(text) => Shape::Pipeline(text.spec_bytes()),
        }
    }
}

/// What stands behind a keyword, without the white space before it.
pub open spec fn behind(cmd: Seq<u8>, keyword: Seq<u8>) -> Seq<u8> {
    spec_trim_start(cmd.skip(keyword.len() as int))
}

/// A name of a function: one byte or more, each of `[A-Za-z0-9_]`.
pub open spec fn spec_is_valid_name(name: Seq<u8>) -> bool {
    name.len() > 0 && forall|i: int| 0 <= i < name.len() ==> is_name_byte(#[trigger] name[i])
}

/// The text before the first `pattern`, and the text behind it unless that is
/// empty, both without the white space round them; the whole text and nothing
/// where `pattern` does not occur.
pub open spec fn spec_split_pattern(arg: Seq<u8>, pattern: Seq<u8>) -> (
    Seq<u8>,
    Option<Seq<u8>>,
) {
    match first_match(arg, pattern) {
        Some(pos) => {
            let comment = spec_trim(arg.skip(pos + pattern.len()));
            (
                spec_trim(arg.take(pos)),
                if comment.len() == 0 {
                    None
                } else {
                    Some(comment)
                },
            )
        },
        None => (arg, None),
    }
}

/// The form of a loop, from what stands behind `for`: the variable up to the
/// first white space, then `in`, then the values.
pub open spec fn classify_for(rest: Seq<u8>) -> Shape {
    match first_space(rest) {
        None => Shape::MalformedFor,
        Some(pos) => {
            let tail = spec_trim_start(rest.skip(pos));
            if "in ".spec_bytes().is_prefix_of(tail) {
                Shape::For { variable: rest.take(pos), values: behind(tail, "in ".spec_bytes()) }
            } else {
                Shape::MalformedFor
            }
        },
    }
}

/// The form of a function, from what stands behind `fn`: the name up to the
/// first white space, then the parameters, and behind `--` the description.
pub open spec fn classify_function(rest: Seq<u8>) -> Shape {
    let pos = match first_space(rest) {
        Some(pos) => pos,
        None => rest.len() as int,
    };
    let name = rest.take(pos);
    if spec_is_valid_name(name) {
        let parts = spec_split_pattern(rest.skip(pos), "--".spec_bytes());
        Shape::Function { name, args: parts.0, description: parts.1 }
    } else {
        Shape::InvalidName(name)
    }
}

/// The form of text that no keyword begins: nothing, a comment, or a command
/// line.
pub open spec fn classify_command(cmd: Seq<u8>) -> Shape {
    if cmd.len() == 0 || cmd[0] == HASH {
        Shape::Blank
    } else {
        Shape::Pipeline(cmd)
    }
}

/// The form of text that begins with `else`: `else if` with a condition, or a
/// command line whose first word happens to begin so.
pub open spec fn classify_else(cmd: Seq<u8>) -> Shape {
    let rest = behind(cmd, "else".spec_bytes());
    if rest.len() == 0 {
        Shape::Else
    } else if "if ".spec_bytes().is_prefix_of(rest) {
        Shape::ElseIf(behind(rest, "if ".spec_bytes()))
    } else {
        classify_command(cmd)
    }
}

/// The form of text that is none of the bare keywords, by the first keyword
/// that it begins with.
pub open spec fn classify_keyword(cmd: Seq<u8>) -> Shape {
    if "let ".spec_bytes().is_prefix_of(cmd) {
        Shape::Let(behind(cmd, "let ".spec_bytes()))
    } else if "export ".spec_bytes().is_prefix_of(cmd) {
        Shape::Export(behind(cmd, "export ".spec_bytes()))
    } else if "if ".spec_bytes().is_prefix_of(cmd) {
        Shape::If(behind(cmd, "if ".spec_bytes()))
    } else if cmd == "else".spec_bytes() {
        Shape::Else
    } else if "else".spec_bytes().is_prefix_of(cmd) {
        classify_else(cmd)
    } else if "while ".spec_bytes().is_prefix_of(cmd) {
        Shape::While(behind(cmd, "while ".spec_bytes()))
    } else if "for ".spec_bytes().is_prefix_of(cmd) {
        classify_for(behind(cmd, "for ".spec_bytes()))
    } else if "case ".spec_bytes().is_prefix_of(cmd) {
        let value = behind(cmd, "case ".spec_bytes());
        if value == "_".spec_bytes() {
            Shape::Case(None)
        } else {
            Shape::Case(Some(value))
        }
    } else if "match ".spec_bytes().is_prefix_of(cmd) {
        Shape::Match(behind(cmd, "match ".spec_bytes()))
    } else if "fn ".spec_bytes().is_prefix_of(cmd) {
        classify_function(behind(cmd, "fn ".spec_bytes()))
    } else {
        classify_command(cmd)
    }
}

/// The form of a statement: the white space round it is dropped, then the
/// bare keywords are tried, then the keywords that begin a statement.
pub open spec fn spec_classify(code: Seq<u8>) -> Shape {
    let cmd = spec_trim(code);
    if cmd == "end".spec_bytes() {
        Shape::End
    } else if cmd == "break".spec_bytes() {
        Shape::Break
    } else if cmd == "continue".spec_bytes() {
        Shape::Continue
    } else if cmd == "for".spec_bytes() || cmd == "match".spec_bytes() || cmd
        == "case".spec_bytes() {
        Shape::Incomplete
    } else {
        classify_keyword(cmd)
    }
}

/// The white space round a statement does not matter to its form.
pub proof fn lemma_white_space_does_not_matter(code: Seq<u8>)
    ensures
        spec_classify(spec_trim(code)) == spec_classify(code),
{
    lemma_trim_is_trimmed(code);
}

/// Whether `name` can name a function: it is not empty and holds only bytes
/// of `[A-Za-z0-9_]`.
pub fn is_valid_name(name: &str) -> (r: bool)
    ensures
        r == spec_is_valid_name(name.spec_bytes()),
{
    let bytes = name.as_bytes();
    let n: usize = bytes.len();
    if n == 0 {
        return false;
    }
    let mut i: usize = 0;
    while i < n
        invariant
            bytes@ == name.spec_bytes(),
            n == bytes@.len(),
            i <= n,
            forall|k: int| 0 <= k < i ==> is_name_byte(#[trigger] bytes@[k]),
        decreases n - i,
    {
        if is_invalid(bytes[i]) {
            return false;
        }
        i = i + 1;
    }
    true
}

/// Splits `arg` at the first `pattern`: the text before it, and the text
/// behind it unless that is empty, both without the white space round them.
/// Where `pattern` does not occur, the whole of `arg` and nothing.
pub fn split_pattern<'a>(arg: &'a str, pattern: &str) -> (r: (&'a str, Option<&'a str>))
    ensures
        r.0.spec_bytes() == spec_split_pattern(arg.spec_bytes(), pattern.spec_bytes()).0,
        bytes_of_part(r.1) == spec_split_pattern(arg.spec_bytes(), pattern.spec_bytes()).1,
{
    match find(arg, pattern) {
        Some(pos) => {
            let n: usize = arg.as_bytes().len();
            let m: usize = pattern.as_bytes().len();
            proof {
                encode_utf8_valid_utf8(arg@);
                is_char_boundary_start_end_of_seq(arg.spec_bytes());
                assert(arg.spec_bytes().take(pos as int) =~= arg.spec_bytes().subrange(
                    0,
                    pos as int,
                ));
                assert(arg.spec_bytes().skip(pos + m) =~= arg.spec_bytes().subrange(
                    pos + m,
                    n as int,
                ));
            }
            let args = trim(slice(arg, 0, pos));
            let comment = trim(slice(arg, pos + m, n));
            if comment.as_bytes().len() == 0 {
                (args, None)
            } else {
                (args, Some(comment))
            }
        },
        None => (arg, None),
    }
}

/// What stands behind `keyword` in text that begins with it, without the
/// white space before it.
fn text_behind<'a>(cmd: &'a str, keyword: &str) -> (r: &'a str)
    requires
        keyword.spec_bytes().is_prefix_of(cmd.spec_bytes()),
    ensures
        r.spec_bytes() == behind(cmd.spec_bytes(), keyword.spec_bytes()),
{
    trim_start(after_prefix(cmd, keyword))
}

/// `s` up to the boundary `pos`, and `s` from there on.
fn split<'a>(s: &'a str, pos: usize) -> (r: (&'a str, &'a str))
    requires
        pos <= s.spec_bytes().len(),
        vstd::utf8::is_char_boundary(s.spec_bytes(), pos as int),
    ensures
        r.0.spec_bytes() == s.spec_bytes().take(pos as int),
        r.1.spec_bytes() == s.spec_bytes().skip(pos as int),
{
    let r = s.split_at(pos);
    assert(r.0.spec_bytes() =~= s.spec_bytes().take(pos as int));
    assert(r.1.spec_bytes() =~= s.spec_bytes().skip(pos as int));
    r
}

fn form_of_for<'a>(rest: &'a str) -> (r: Form<'a>)
    ensures
        r@ == classify_for(rest.spec_bytes()),
{
    match find_space(rest) {
        None => Form::MalformedFor,
        Some(pos) => {
            let (variable, tail) = split(rest, pos);
            let tail = trim_start(tail);
            if starts_with(tail, "in ") {
                Form::For { variable, values: text_behind(tail, "in ") }
            } else {
                Form::MalformedFor
            }
        },
    }
}

fn form_of_function<'a>(rest: &'a str) -> (r: Form<'a>)
    ensures
        r@ == classify_function(rest.spec_bytes()),
{
    let pos: usize = match find_space(rest) {
        Some(pos) => pos,
        None => {
            proof {
                encode_utf8_valid_utf8(rest@);
                is_char_boundary_start_end_of_seq(rest.spec_bytes());
            }
            rest.as_bytes().len()
        },
    };
    let (name, tail) = split(rest, pos);
    if is_valid_name(name) {
        let (args, description) = split_pattern(tail, "--");
        Form::Function { name, args, description }
    } else {
        Form::InvalidName(name)
    }
}

fn form_of_command<'a>(cmd: &'a str) -> (r: Form<'a>)
    ensures
        r@ == classify_command(cmd.spec_bytes()),
{
    let bytes = cmd.as_bytes();
    if bytes.len() == 0 || bytes[0] == HASH {
        Form::Blank
    } else {
        Form::Pipeline(cmd)
    }
}

fn form_of_else<'a>(cmd: &'a str) -> (r: Form<'a>)
    requires
        "else".spec_bytes().is_prefix_of(cmd.spec_bytes()),
    ensures
        r@ == classify_else(cmd.spec_bytes()),
{
    let rest = text_behind(cmd, "else");
    if rest.as_bytes().len() == 0 {
        Form::Else
    } else if starts_with(rest, "if ") {
        Form::ElseIf(text_behind(rest, "if "))
    } else {
        form_of_command(cmd)
    }
}

fn form_of_keyword<'a>(cmd: &'a str) -> (r: Form<'a>)
    ensures
        r@ == classify_keyword(cmd.spec_bytes()),
{
    if starts_with(cmd, "let ") {
        Form::Let(text_behind(cmd, "let "))
    } else if starts_with(cmd, "export ") {
        Form::Export(text_behind(cmd, "export "))
    } else if starts_with(cmd, "if ") {
        Form::If(text_behind(cmd, "if "))
    } else if equal(cmd, "else") {
        Form::Else
    } else if starts_with(cmd, "else") {
        form_of_else(cmd)
    } else if starts_with(cmd, "while ") {
        Form::While(text_behind(cmd, "while "))
    } else if starts_with(cmd, "for ") {
        form_of_for(text_behind(cmd, "for "))
    } else if starts_with(cmd, "case ") {
        let value = text_behind(cmd, "case ");
        if equal(value, "_") {
            Form::Case(None)
        } else {
            Form::Case(Some(value))
        }
    } else if starts_with(cmd, "match ") {
        Form::Match(text_behind(cmd, "match "))
    } else if starts_with(cmd, "fn ") {
        form_of_function(text_behind(cmd, "fn "))
    } else {
        form_of_command(cmd)
    }
}

/// The form of the statement `code`.
pub fn classify<'a>(code: &'a str) -> (r: Form<'a>)
    ensures
        r@ == spec_classify(code.spec_bytes()),
{
    let cmd = trim(code);
    if equal(cmd, "end") {
        Form::End
    } else if equal(cmd, "break") {
        Form::Break
    } else if equal(cmd, "continue") {
        Form::Continue
    } else if equal(cmd, "for") || equal(cmd, "match") || equal(cmd, "case") {
        Form::Incomplete
    } else {
        form_of_keyword(cmd)
    }
}

} // verus!
