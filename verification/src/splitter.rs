//! Splits script text into statements.
use crate::machine::{
    act, apostrophe, begin, close_brace, close_paren, fresh, is_name_byte, last_item, leftover,
    meaning, misplaced, next_item, open_brace, open_paren, plain_byte, quote, record, scan,
    statements, step_at, Ending, Fault, LogicalOp, Machine, Piece, Quotes, Scan, Step,
    AMPERSAND, APOSTROPHE, AT, BACKSLASH, CARET, CLOSE_BRACE, CLOSE_PAREN, COLON, COMMA, DOLLAR,
    GREATER, LESS, OPEN_BRACE, OPEN_PAREN, PERCENT, PIPE, QUESTION, QUOTE, SEMICOLON, SPACE,
    STAR, UNDERSCORE,
};
use crate::report::{decimal, push_decimal};
use crate::text::{bytes_of, equal, lemma_boundary_around_ascii, slice, spec_trim, trim};
use vstd::prelude::*;
use vstd::string::{StringExecFns, StringSliceAdditionalSpecFns};
use vstd::utf8::{
    encode_utf8_valid_utf8, is_char_boundary, is_char_boundary_start_end_of_seq, valid_utf8,
};

verus! {

/// A structural error in a statement.
#[derive(Debug, PartialEq)]
pub enum StatementError {
    IllegalCommandName(String),
    /// The character and its position, counted in bytes from 1.
    InvalidCharacter(char, usize),
    UnterminatedSubshell,
    UnterminatedBracedVar,
    UnterminatedBrace,
    UnterminatedMethod,
    UnterminatedArithmetic,
    ExpectedCommandButFound(&'static str),
}

impl View for StatementError {
    type V = Fault;

    open spec fn view(&self) -> Fault {
        match self {
            StatementError::IllegalCommandName(name) => Fault::IllegalCommandName(
                bytes_of(name@),
            ),
            StatementError::InvalidCharacter(c, position) => Fault::InvalidCharacter(
                *c,
                *position as nat,
            ),
            StatementError::UnterminatedSubshell => Fault::UnterminatedSubshell,
            StatementError::UnterminatedBracedVar => Fault::UnterminatedBracedVar,
            StatementError::UnterminatedBrace => Fault::UnterminatedBrace,
            StatementError::UnterminatedMethod => Fault::UnterminatedMethod,
            StatementError::UnterminatedArithmetic => Fault::UnterminatedArithmetic,
            StatementError::ExpectedCommandButFound(element) => Fault::ExpectedCommandButFound(
                element@,
            ),
        }
    }
}

impl StatementError {
    /// The line that reports the error.
    pub open spec fn spec_message(self) -> Seq<char> {
        match self {
            StatementError::IllegalCommandName(command) => "illegal command name: "@ + command@,
            StatementError::InvalidCharacter(character, position) => "syntax error: '"@.push(
                character,
            ) + "' at position "@ + decimal(position as nat) + " is out of place"@,
            StatementError::UnterminatedSubshell => "syntax error: unterminated subshell"@,
            StatementError::UnterminatedBracedVar => "syntax error: unterminated braced var"@,
            StatementError::UnterminatedBrace => "syntax error: unterminated brace"@,
            StatementError::UnterminatedMethod => "syntax error: unterminated method"@,
            StatementError::UnterminatedArithmetic => {
                "syntax error: unterminated arithmetic subexpression"@
            },
            StatementError::ExpectedCommandButFound(element) => "expected command, but found "@
                + element@,
        }
    }

    /// The line that reports the error.
    pub fn message(&self) -> (r: String)
        ensures
            r@ == self.spec_message(),
    {
        match self {
            StatementError::IllegalCommandName(command) => {
                let mut line = "illegal command name: ".to_owned();
                line.append(command.as_str());
                line
            },
            StatementError::InvalidCharacter(character, position) => {
                let mut line = "syntax error: '".to_owned();
                line.push(*character);
                line.append("' at position ");
                push_decimal(&mut line, *position);
                line.append(" is out of place");
                line
            },
            StatementError::UnterminatedSubshell => {
                "syntax error: unterminated subshell".to_owned()
            },
            StatementError::UnterminatedBracedVar => {
                "syntax error: unterminated braced var".to_owned()
            },
            StatementError::UnterminatedBrace => "syntax error: unterminated brace".to_owned(),
            StatementError::UnterminatedMethod => "syntax error: unterminated method".to_owned(),
            StatementError::UnterminatedArithmetic => {
                "syntax error: unterminated arithmetic subexpression".to_owned()
            },
            StatementError::ExpectedCommandButFound(element) => {
                let mut line = "expected command, but found ".to_owned();
                line.append(element);
                line
            },
        }
    }
}

/// A statement of the text, under the connective that came before it.
#[derive(Debug, PartialEq)]
pub enum StatementVariant<'a> {
    And(&'a str),
    Or(&'a str),
    Default(&'a str),
}

impl<'a> View for StatementVariant<'a> {
    type V = Piece;

    open spec fn view(&self) -> Piece {
        match self {
            StatementVariant::And(text) => Piece {
                logical: LogicalOp::And,
                text: text.spec_bytes(),
            },
            StatementVariant::Or(text) => Piece { logical: LogicalOp::Or, text: text.spec_bytes() },
            StatementVariant::Default(text) => Piece {
                logical: LogicalOp::Plain,
                text: text.spec_bytes(),
            },
        }
    }
}

/// A statement or the error in its place, as contracts speak of it.
pub open spec fn result_view(item: Result<StatementVariant<'_>, StatementError>) -> Result<
    Piece,
    Fault,
> {
    match item {
        Ok(statement) => Ok(statement@),
        Err(error) => Err(error@),
    }
}

/// What a call for a statement returned, as contracts speak of it.
pub open spec fn item_view(
    item: Option<Result<StatementVariant<'_>, StatementError>>,
) -> Option<Result<Piece, Fault>> {
    match item {
        Some(item) => Some(result_view(item)),
        None => None,
    }
}

/// What a text yielded, as contracts speak of it.
pub open spec fn items_view(items: Seq<Result<StatementVariant<'_>, StatementError>>) -> Seq<
    Result<Piece, Fault>,
> {
    items.map_values(|item: Result<StatementVariant<'_>, StatementError>| result_view(item))
}

/// Returns true if the byte matches `[^A-Za-z0-9_]`.
pub fn is_invalid(byte: u8) -> (r: bool)
    ensures
        r == !is_name_byte(byte),
{
    !((0x30 <= byte && byte <= 0x39) || (0x41 <= byte && byte <= 0x5a) || (0x61 <= byte && byte
        <= 0x7a) || byte == UNDERSCORE)
}

/// The machine, with counters that the processor can hold. The count of
/// arithmetic brackets is wide enough for any number of bytes.
#[derive(Clone, Copy, Debug)]
struct State {
    quotes: Quotes,
    logical: LogicalOp,
    paren_level: usize,
    brace_level: usize,
    math_paren_level: i128,
    math_expr: bool,
    skip: bool,
    vbrace: bool,
    method: bool,
    variable: bool,
}

impl View for State {
    type V = Machine;

    closed spec fn view(&self) -> Machine {
        Machine {
            quotes: self.quotes,
            logical: self.logical,
            paren_level: self.paren_level as int,
            brace_level: self.brace_level as int,
            math_paren_level: self.math_paren_level as int,
            math_expr: self.math_expr,
            skip: self.skip,
            vbrace: self.vbrace,
            method: self.method,
            variable: self.variable,
        }
    }
}

impl State {
    /// No counter has moved further than one step for each byte read.
    spec fn bounded(self, read: int) -> bool {
        &&& self.paren_level <= read
        &&& self.brace_level <= read
        &&& -read - 1 <= self.math_paren_level <= read
    }

    /// The counters are those of `other`.
    spec fn bounded_as(self, other: State) -> bool {
        &&& self.paren_level == other.paren_level
        &&& self.brace_level == other.brace_level
        &&& self.math_paren_level == other.math_paren_level
    }
}

/// An error that a byte can cause.
#[derive(Clone, Copy, Debug)]
enum Flaw {
    InvalidCharacter(char, usize),
    UnterminatedArithmetic,
}

impl View for Flaw {
    type V = Fault;

    closed spec fn view(&self) -> Fault {
        match self {
            Flaw::InvalidCharacter(c, position) => Fault::InvalidCharacter(*c, *position as nat),
            Flaw::UnterminatedArithmetic => Fault::UnterminatedArithmetic,
        }
    }
}

impl Flaw {
    /// The error as it is handed out.
    fn error(self) -> (r: StatementError)
        ensures
            r@ == self@,
    {
        match self {
            Flaw::InvalidCharacter(c, position) => StatementError::InvalidCharacter(c, position),
            Flaw::UnterminatedArithmetic => StatementError::UnterminatedArithmetic,
        }
    }
}

/// The scan of one statement.
#[derive(Clone, Copy, Debug)]
struct Progress {
    state: State,
    first_arg_found: bool,
    error: Option<Flaw>,
    last: Option<u8>,
}

impl View for Progress {
    type V = Scan;

    closed spec fn view(&self) -> Scan {
        Scan {
            machine: self.state@,
            first_arg_found: self.first_arg_found,
            error: match self.error {
                Some(error) => Some(error@),
                None => None,
            },
            last: self.last,
        }
    }
}

/// What a byte did: the scan goes on, or the statement ends.
enum Advance {
    Next(Progress),
    Stop(Ending),
}

impl View for Advance {
    type V = Step;

    closed spec fn view(&self) -> Step {
        match self {
            Advance::Next(progress) => Step::Next(progress@),
            Advance::Stop(ending) => Step::Stop(*ending),
        }
    }
}

/// Keeps the first error of a statement.
fn note(p: Progress, error: Flaw) -> (r: Progress)
    ensures
        r@ == record(p@, error@),
        r.state == p.state,
{
    if p.error.is_none() {
        Progress { error: Some(error), ..p }
    } else {
        p
    }
}

/// What `(` does.
fn on_open_paren(p: Progress, next: Option<u8>, pos: usize) -> (r: Progress)
    requires
        p.state.bounded(pos - 1),
        pos >= 1,
    ensures
        r@ == open_paren(p@, next, pos as nat),
        r.state.bounded(pos as int),
{
    let m = p.state;
    if m.math_expr {
        Progress { state: State { math_paren_level: m.math_paren_level + 1, ..m }, ..p }
    } else if !m.variable {
        if m.quotes == Quotes::Unquoted {
            note(p, Flaw::InvalidCharacter(OPEN_PAREN as char, pos))
        } else {
            p
        }
    } else if m.method || p.last == Some(DOLLAR) {
        if next == Some(OPEN_PAREN) {
            Progress {
                state: State { variable: false, math_expr: true, math_paren_level: -1, ..m },
                ..p
            }
        } else {
            Progress { state: State { variable: false, paren_level: m.paren_level + 1, ..m }, ..p }
        }
    } else if p.last == Some(AT) {
        Progress { state: State { paren_level: m.paren_level + 1, ..m }, ..p }
    } else {
        Progress { state: State { method: true, variable: false, ..m }, ..p }
    }
}

/// What `)` does.
fn on_close_paren(p: Progress, next: Option<u8>, pos: usize) -> (r: Progress)
    requires
        p.state.bounded(pos - 1),
        pos >= 1,
    ensures
        r@ == close_paren(p@, next, pos as nat),
        r.state.bounded(pos as int),
{
    let m = p.state;
    if m.math_expr {
        if m.math_paren_level == 0 {
            match next {
                Some(n) => if n == CLOSE_PAREN {
                    Progress { state: State { math_expr: false, skip: true, ..m }, ..p }
                } else {
                    note(p, Flaw::InvalidCharacter(n as char, pos))
                },
                None => note(p, Flaw::UnterminatedArithmetic),
            }
        } else {
            Progress { state: State { math_paren_level: m.math_paren_level - 1, ..m }, ..p }
        }
    } else if m.method && m.paren_level == 0 {
        Progress { state: State { method: false, ..m }, ..p }
    } else if m.paren_level == 0 {
        if m.quotes == Quotes::Unquoted {
            note(p, Flaw::InvalidCharacter(CLOSE_PAREN as char, pos))
        } else {
            p
        }
    } else {
        Progress { state: State { paren_level: m.paren_level - 1, ..m }, ..p }
    }
}

/// What `'` does.
fn on_apostrophe(p: Progress) -> (r: Progress)
    ensures
        r@ == apostrophe(p@),
        r.state.bounded_as(p.state),
{
    let m = p.state;
    if m.quotes == Quotes::Single {
        Progress { state: State { quotes: Quotes::Unquoted, ..m }, ..p }
    } else if m.quotes == Quotes::Unquoted {
        Progress { state: State { quotes: Quotes::Single, variable: false, ..m }, ..p }
    } else {
        p
    }
}

/// What `"` does outside single quotes.
fn on_quote(p: Progress) -> (r: Progress)
    ensures
        r@ == quote(p@),
        r.state.bounded_as(p.state),
{
    let m = p.state;
    if m.quotes == Quotes::Double {
        Progress { state: State { quotes: Quotes::Unquoted, ..m }, ..p }
    } else {
        Progress { state: State { quotes: Quotes::Double, variable: false, ..m }, ..p }
    }
}

/// What a byte with no meaning of its own does.
fn on_plain_byte(p: Progress, c: u8) -> (r: Progress)
    ensures
        r@ == plain_byte(p@, c),
        r.state.bounded_as(p.state),
{
    let m = p.state;
    if m.variable && is_invalid(c) {
        Progress { state: State { variable: false, ..m }, ..p }
    } else {
        p
    }
}

/// What `{` does.
fn on_open_brace(p: Progress, pos: usize) -> (r: Progress)
    requires
        p.state.bounded(pos - 1),
        pos >= 1,
    ensures
        r@ == open_brace(p@),
        r.state.bounded(pos as int),
{
    let m = p.state;
    if p.last == Some(DOLLAR) || p.last == Some(AT) {
        Progress { state: State { vbrace: true, ..m }, ..p }
    } else if m.quotes == Quotes::Unquoted {
        Progress { state: State { brace_level: m.brace_level + 1, ..m }, ..p }
    } else {
        on_plain_byte(p, OPEN_BRACE)
    }
}

/// What `}` does.
fn on_close_brace(p: Progress, pos: usize) -> (r: Progress)
    requires
        p.state.bounded(pos - 1),
        pos >= 1,
    ensures
        r@ == close_brace(p@, pos as nat),
        r.state.bounded(pos as int),
{
    let m = p.state;
    if m.vbrace {
        Progress { state: State { vbrace: false, ..m }, ..p }
    } else if m.quotes == Quotes::Unquoted {
        if m.brace_level == 0 {
            note(p, Flaw::InvalidCharacter(CLOSE_BRACE as char, pos))
        } else {
            Progress { state: State { brace_level: m.brace_level - 1, ..m }, ..p }
        }
    } else {
        on_plain_byte(p, CLOSE_BRACE)
    }
}

/// What a first space does, `output` being the statement so far without the
/// white space round it.
fn on_first_space(p: Progress, output: &str) -> (r: Advance)
    ensures
        r@ == (if output.spec_bytes().len() == 0 {
            Step::Next(p@)
        } else if output.spec_bytes() == "else".spec_bytes() {
            Step::Stop(Ending::Else)
        } else {
            Step::Next(Scan { first_arg_found: true, ..p@ })
        }),
        r matches Advance::Next(q) ==> q.state == p.state,
{
    if output.as_bytes().len() == 0 {
        Advance::Next(p)
    } else if equal(output, "else") {
        Advance::Stop(Ending::Else)
    } else {
        Advance::Next(Progress { first_arg_found: true, ..p })
    }
}

/// What the byte `c` at `i` does when no earlier rule has taken it.
fn on_meaning(data: &str, start: usize, i: usize, p: Progress, c: u8, next: Option<u8>) -> (r:
    Advance)
    requires
        start <= i < data.spec_bytes().len(),
        i < usize::MAX,
        is_char_boundary(data.spec_bytes(), start as int),
        p.state.bounded(i as int),
        c == data.spec_bytes()[i as int],
    ensures
        r@ == meaning(
            p@,
            c,
            next,
            (i + 1) as nat,
            spec_trim(data.spec_bytes().subrange(start as int, i as int)),
        ),
        r matches Advance::Next(q) ==> q.state.bounded(i + 1),
        r is Stop ==> c < 0x80,
        r matches Advance::Stop(ending) ==> (ending is And || ending is Or) ==> next == Some(c),
{
    let pos: usize = i + 1;
    let m = p.state;
    if c == AT || c == DOLLAR {
        Advance::Next(Progress { state: State { variable: true, ..m }, ..p })
    } else if c == OPEN_BRACE {
        Advance::Next(on_open_brace(p, pos))
    } else if c == CLOSE_BRACE {
        Advance::Next(on_close_brace(p, pos))
    } else if c == OPEN_PAREN {
        Advance::Next(on_open_paren(p, next, pos))
    } else if c == CLOSE_PAREN {
        Advance::Next(on_close_paren(p, next, pos))
    } else if c == SEMICOLON && m.quotes == Quotes::Unquoted && m.paren_level == 0 {
        Advance::Stop(Ending::Terminator)
    } else if c == AMPERSAND && m.quotes == Quotes::Unquoted && m.paren_level == 0 {
        if next == Some(AMPERSAND) {
            Advance::Stop(Ending::And)
        } else {
            Advance::Next(p)
        }
    } else if c == PIPE && m.quotes == Quotes::Unquoted && m.paren_level == 0 {
        if next == Some(PIPE) {
            Advance::Stop(Ending::Or)
        } else {
            Advance::Next(p)
        }
    } else if c == SPACE && !p.first_arg_found {
        proof {
            encode_utf8_valid_utf8(data@);
            lemma_boundary_around_ascii(data.spec_bytes(), i as int);
        }
        on_first_space(p, trim(slice(data, start, i)))
    } else {
        Advance::Next(on_plain_byte(p, c))
    }
}

/// What the byte `c` at `i` does when it is not escaped.
fn on_act(data: &str, start: usize, i: usize, p: Progress, c: u8, next: Option<u8>) -> (r:
    Advance)
    requires
        start <= i < data.spec_bytes().len(),
        i < usize::MAX,
        is_char_boundary(data.spec_bytes(), start as int),
        p.state.bounded(i as int),
        c == data.spec_bytes()[i as int],
    ensures
        r@ == act(
            p@,
            c,
            next,
            (i + 1) as nat,
            spec_trim(data.spec_bytes().subrange(start as int, i as int)),
        ),
        r matches Advance::Next(q) ==> q.state.bounded(i + 1),
        r is Stop ==> c < 0x80,
        r matches Advance::Stop(ending) ==> (ending is And || ending is Or) ==> next == Some(c),
{
    let m = p.state;
    if c == BACKSLASH {
        Advance::Next(Progress { state: State { skip: true, ..m }, ..p })
    } else if c == APOSTROPHE {
        Advance::Next(on_apostrophe(p))
    } else if m.quotes == Quotes::Single {
        Advance::Next(p)
    } else if c == QUOTE {
        Advance::Next(on_quote(p))
    } else if m.vbrace && is_invalid(c) && c != COLON && c != COMMA && c != CLOSE_BRACE {
        Advance::Next(note(p, Flaw::InvalidCharacter(c as char, i + 1)))
    } else {
        on_meaning(data, start, i, p, c, next)
    }
}

/// What the byte at `i` does to the scan of the statement that began at
/// `start`.
fn advance(data: &str, start: usize, i: usize, p: Progress) -> (r: Advance)
    requires
        start <= i < data.spec_bytes().len(),
        is_char_boundary(data.spec_bytes(), start as int),
        p.state.bounded(i as int),
    ensures
        r@ == step_at(data.spec_bytes(), start as int, i as int, p@),
        r matches Advance::Next(q) ==> q.state.bounded(i + 1),
        r is Stop ==> data.spec_bytes()[i as int] < 0x80,
        r matches Advance::Stop(ending) ==> (ending is And || ending is Or) ==> i + 1
            < data.spec_bytes().len() && data.spec_bytes()[i + 1] < 0x80,
{
    let bytes = data.as_bytes();
    let c: u8 = bytes[i];
    let next: Option<u8> = if i + 1 < bytes.len() {
        Some(bytes[i + 1])
    } else {
        None
    };
    let m = p.state;
    if m.skip {
        Advance::Next(Progress { state: State { skip: false, ..m }, last: None, ..p })
    } else {
        match on_act(data, start, i, p, c, next) {
            Advance::Next(after) => Advance::Next(Progress { last: Some(c), ..after }),
            Advance::Stop(ending) => Advance::Stop(ending),
        }
    }
}

/// The error for what is still open at the end of the text.
fn leftover_error(state: State) -> (r: Option<StatementError>)
    ensures
        match r {
            Some(error) => leftover(state@) == Some(error@),
            None => leftover(state@) is None,
        },
{
    if state.paren_level != 0 {
        Some(StatementError::UnterminatedSubshell)
    } else if state.method {
        Some(StatementError::UnterminatedMethod)
    } else if state.vbrace {
        Some(StatementError::UnterminatedBracedVar)
    } else if state.brace_level != 0 {
        Some(StatementError::UnterminatedBrace)
    } else if state.math_expr {
        Some(StatementError::UnterminatedArithmetic)
    } else {
        None
    }
}

/// The error for a last statement that begins with what cannot begin a
/// command.
fn misplaced_error(output: &str) -> (r: Option<StatementError>)
    ensures
        match r {
            Some(error) => misplaced(output.spec_bytes()) == Some(error@),
            None => misplaced(output.spec_bytes()) is None,
        },
{
    let bytes = output.as_bytes();
    if bytes.len() == 0 {
        return None;
    }
    let b: u8 = bytes[0];
    if b == GREATER || b == LESS || b == CARET {
        Some(StatementError::ExpectedCommandButFound("redirection"))
    } else if b == PIPE {
        Some(StatementError::ExpectedCommandButFound("pipe"))
    } else if b == AMPERSAND {
        Some(StatementError::ExpectedCommandButFound("&"))
    } else if b == STAR || b == PERCENT || b == QUESTION || b == OPEN_BRACE || b == CLOSE_BRACE {
        Some(StatementError::IllegalCommandName(output.to_owned()))
    } else {
        None
    }
}

/// Walks a text statement by statement.
#[derive(Debug)]
pub struct StatementSplitter<'a> {
    data: &'a str,
    read: usize,
    state: State,
}

impl<'a> StatementSplitter<'a> {
    #[verifier::type_invariant]
    spec fn well_formed(self) -> bool {
        &&& self.read <= self.data.spec_bytes().len()
        &&& is_char_boundary(self.data.spec_bytes(), self.read as int)
        &&& self.state.bounded(self.read as int)
    }

    /// The bytes of the text.
    pub closed spec fn text(self) -> Seq<u8> {
        self.data.spec_bytes()
    }

    /// How many bytes have been read.
    pub closed spec fn position(self) -> int {
        self.read as int
    }

    /// The state of the machine.
    pub closed spec fn machine(self) -> Machine {
        self.state@
    }

    /// A splitter at the start of `data`.
    pub fn new(data: &'a str) -> (r: Self)
        ensures
            r.text() == data.spec_bytes(),
            r.position() == 0,
            r.machine() == fresh(),
    {
        proof {
            encode_utf8_valid_utf8(data@);
            is_char_boundary_start_end_of_seq(data.spec_bytes());
        }
        StatementSplitter {
            data,
            read: 0,
            state: State {
                quotes: Quotes::Unquoted,
                logical: LogicalOp::Plain,
                paren_level: 0,
                brace_level: 0,
                math_paren_level: 0,
                math_expr: false,
                skip: false,
                vbrace: false,
                method: false,
                variable: false,
            },
        }
    }

    /// The statement between two boundaries, without the white space round it,
    /// under the connective `logical`.
    fn get_statement(data: &'a str, logical: LogicalOp, start: usize, end: usize) -> (r:
        StatementVariant<'a>)
        requires
            start <= end <= data.spec_bytes().len(),
            is_char_boundary(data.spec_bytes(), start as int),
            is_char_boundary(data.spec_bytes(), end as int),
        ensures
            r@ == (Piece {
                logical,
                text: spec_trim(data.spec_bytes().subrange(start as int, end as int)),
            }),
    {
        Self::get_statement_from(logical, trim(slice(data, start, end)))
    }

    /// `input` as a statement under the connective `logical`.
    fn get_statement_from(logical: LogicalOp, input: &'a str) -> (r: StatementVariant<'a>)
        ensures
            r@ == (Piece { logical, text: input.spec_bytes() }),
    {
        match logical {
            LogicalOp::And => StatementVariant::And(input),
            LogicalOp::Or => StatementVariant::Or(input),
            LogicalOp::Plain => StatementVariant::Default(input),
        }
    }

    /// The last statement of the text, which began at `start`, or the error
    /// that stands for it.
    fn last_statement(data: &'a str, start: usize, p: Progress) -> (r: Result<
        StatementVariant<'a>,
        StatementError,
    >)
        requires
            start <= data.spec_bytes().len(),
            is_char_boundary(data.spec_bytes(), start as int),
        ensures
            match r {
                Ok(statement) => last_item(p@, spec_trim(data.spec_bytes().skip(start as int)))
                    == Ok::<Piece, Fault>(statement@),
                Err(error) => last_item(p@, spec_trim(data.spec_bytes().skip(start as int)))
                    == Err::<Piece, Fault>(error@),
            },
    {
        if let Some(flaw) = p.error {
            return Err(flaw.error());
        }
        if let Some(error) = leftover_error(p.state) {
            return Err(error);
        }
        let n: usize = data.as_bytes().len();
        proof {
            encode_utf8_valid_utf8(data@);
            is_char_boundary_start_end_of_seq(data.spec_bytes());
            assert(data.spec_bytes().skip(start as int) =~= data.spec_bytes().subrange(
                start as int,
                n as int,
            ));
        }
        let output = trim(slice(data, start, n));
        if let Some(error) = misplaced_error(output) {
            return Err(error);
        }
        Ok(Self::get_statement_from(p.state.logical, output))
    }

    /// The next statement of the text, or the error in its place; `None` at
    /// the end of the text.
    pub fn next(&mut self) -> (r: Option<Result<StatementVariant<'a>, StatementError>>)
        ensures
            final(self).text() == old(self).text(),
            item_view(r) == next_item(
                old(self).text(),
                old(self).position(),
                old(self).machine(),
            ).item,
            final(self).position() == next_item(
                old(self).text(),
                old(self).position(),
                old(self).machine(),
            ).read,
            final(self).machine() == next_item(
                old(self).text(),
                old(self).position(),
                old(self).machine(),
            ).machine,
            r is Some ==> old(self).position() < final(self).position() <= old(self).text().len(),
            r is None ==> final(self).position() == old(self).position(),
    {
        proof {
            use_type_invariant(&*self);
            encode_utf8_valid_utf8(self.data@);
        }
        let data: &'a str = self.data;
        let bytes = data.as_bytes();
        let n: usize = bytes.len();
        let start: usize = self.read;
        let mut i: usize = start;
        let mut p = Progress { state: self.state, first_arg_found: false, error: None, last: None };
        while i < n
            invariant
                bytes@ == data.spec_bytes(),
                n == bytes@.len(),
                start <= i <= n,
                is_char_boundary(bytes@, start as int),
                p.state.bounded(i as int),
                data == old(self).data,
                start == old(self).read,
                *self == *old(self),
                self.state.bounded(start as int),
                valid_utf8(bytes@),
                scan(bytes@, start as int, i as int, p@) == scan(
                    bytes@,
                    start as int,
                    start as int,
                    begin(old(self).state@),
                ),
            decreases n - i,
        {
            match advance(data, start, i, p) {
                Advance::Next(q) => {
                    p = q;
                    i = i + 1;
                },
                Advance::Stop(ending) => {
                    proof {
                        lemma_boundary_around_ascii(bytes@, i as int);
                    }
                    let statement = Self::get_statement(data, p.state.logical, start, i);
                    let item = match p.error {
                        Some(flaw) => Err(flaw.error()),
                        None => Ok(statement),
                    };
                    match ending {
                        Ending::Terminator => {
                            self.read = i + 1;
                            self.state = State { logical: LogicalOp::Plain, ..p.state };
                            return Some(item);
                        },
                        Ending::And => {
                            proof {
                                lemma_boundary_around_ascii(bytes@, i + 1);
                            }
                            self.read = i + 2;
                            self.state = State { logical: LogicalOp::And, ..p.state };
                            return Some(item);
                        },
                        Ending::Or => {
                            proof {
                                lemma_boundary_around_ascii(bytes@, i + 1);
                            }
                            self.read = i + 2;
                            self.state = State { logical: LogicalOp::Or, ..p.state };
                            return Some(item);
                        },
                        Ending::Else => {
                            self.read = i + 1;
                            self.state = State { logical: LogicalOp::Plain, ..p.state };
                            return Some(Ok(StatementVariant::Default("else")));
                        },
                    }
                },
            }
        }
        if start == n {
            return None;
        }
        let item = Self::last_statement(data, start, p);
        proof {
            is_char_boundary_start_end_of_seq(bytes@);
        }
        self.read = n;
        if item.is_ok() {
            self.state = State { logical: LogicalOp::Plain, ..p.state };
        } else {
            self.state = p.state;
        }
        Some(item)
    }

    /// All the statements that are left, in order.
    pub fn collect(self) -> (r: Vec<Result<StatementVariant<'a>, StatementError>>)
        ensures
            items_view(r@) == statements(self.text(), self.position(), self.machine()),
    {
        let mut rest = self;
        let mut items: Vec<Result<StatementVariant<'a>, StatementError>> = Vec::new();
        proof {
            use_type_invariant(&rest);
        }
        assert(items_view(items@) =~= Seq::empty());
        loop
            invariant
                rest.text() == self.text(),
                0 <= rest.position() <= rest.text().len(),
                items_view(items@) + statements(rest.text(), rest.position(), rest.machine())
                    == statements(self.text(), self.position(), self.machine()),
            decreases rest.text().len() - rest.position(),
        {
            let ghost before = rest;
            let ghost seen = items_view(items@);
            match rest.next() {
                Some(item) => {
                    items.push(item);
                    proof {
                        assert(items_view(items@) =~= seen + seq![result_view(item)]);
                        assert(seen + (seq![result_view(item)] + statements(
                            rest.text(),
                            rest.position(),
                            rest.machine(),
                        )) =~= items_view(items@) + statements(
                            rest.text(),
                            rest.position(),
                            rest.machine(),
                        ));
                    }
                },
                None => {
                    assert(items_view(items@) + Seq::empty() =~= items_view(items@));
                    return items;
                },
            }
        }
    }
}

} // verus!
