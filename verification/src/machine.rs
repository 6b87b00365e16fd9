//! The statement lexer as a state machine over bytes.
//!
//! `step` says what one byte does to the machine, `scan` reads bytes until a
//! statement ends, and `statements` is everything a text yields.
use crate::text::spec_trim;
use vstd::prelude::*;
use vstd::string::StringSliceAdditionalSpecFns;

verus! {

pub const BACKSLASH: u8 = 0x5c;

pub const APOSTROPHE: u8 = 0x27;

pub const QUOTE: u8 = 0x22;

pub const DOLLAR: u8 = 0x24;

pub const AT: u8 = 0x40;

pub const OPEN_BRACE: u8 = 0x7b;

pub const CLOSE_BRACE: u8 = 0x7d;

pub const OPEN_PAREN: u8 = 0x28;

pub const CLOSE_PAREN: u8 = 0x29;

pub const SEMICOLON: u8 = 0x3b;

pub const AMPERSAND: u8 = 0x26;

pub const PIPE: u8 = 0x7c;

pub const SPACE: u8 = 0x20;

pub const COLON: u8 = 0x3a;

pub const COMMA: u8 = 0x2c;

pub const UNDERSCORE: u8 = 0x5f;

pub const GREATER: u8 = 0x3e;

pub const LESS: u8 = 0x3c;

pub const CARET: u8 = 0x5e;

pub const STAR: u8 = 0x2a;

pub const PERCENT: u8 = 0x25;

pub const QUESTION: u8 = 0x3f;

/// Which kind of quotation the lexer is inside of.
#[derive(Clone, Copy, Debug, PartialEq, Eq, Structural)]
pub enum Quotes {
    Single,
    Double,
    Unquoted,
}

/// The connective that came before a statement.
#[derive(Clone, Copy, Debug, PartialEq, Eq, Structural)]
pub enum LogicalOp {
    And,
    Or,
    Plain,
}

/// What the lexer remembers from one byte to the next, and from one statement
/// to the next.
pub struct Machine {
    pub quotes: Quotes,
    /// The connective of the statement being read.
    pub logical: LogicalOp,
    pub paren_level: int,
    pub brace_level: int,
    pub math_paren_level: int,
    /// Inside `$((` .. `))`.
    pub math_expr: bool,
    /// The next byte is escaped.
    pub skip: bool,
    /// Inside `${` .. `}` or `@{` .. `}`.
    pub vbrace: bool,
    /// Inside the brackets of a method call.
    pub method: bool,
    /// A `$` or `@` was read and the name behind it has not ended.
    pub variable: bool,
}

/// A structural error, as contracts speak of it.
pub enum Fault {
    IllegalCommandName(Seq<u8>),
    InvalidCharacter(char, nat),
    UnterminatedSubshell,
    UnterminatedBracedVar,
    UnterminatedBrace,
    UnterminatedMethod,
    UnterminatedArithmetic,
    ExpectedCommandButFound(Seq<char>),
}

/// A statement as contracts speak of it: its connective and its bytes.
pub struct Piece {
    pub logical: LogicalOp,
    pub text: Seq<u8>,
}

/// What holds while one statement is read.
pub struct Scan {
    pub machine: Machine,
    /// The first word of the statement has been passed.
    pub first_arg_found: bool,
    /// The first error of this statement.
    pub error: Option<Fault>,
    /// The byte before, unless that byte was escaped.
    pub last: Option<u8>,
}

/// How a statement ends before the end of the text.
pub enum Ending {
    /// At `;`.
    Terminator,
    /// At `&&`.
    And,
    /// At `||`.
    Or,
    /// Behind a first word `else` and a space.
    Else,
}

/// What a byte does: the scan goes on, or the statement ends.
pub enum Step {
    Next(Scan),
    Stop(Ending),
}

/// What one call for a statement leaves: the machine, the position, and the
/// statement or error, if the text was not at its end.
pub struct Outcome {
    pub machine: Machine,
    pub read: int,
    pub item: Option<Result<Piece, Fault>>,
}

/// The machine before the first byte.
pub open spec fn fresh() -> Machine {
    Machine {
        quotes: Quotes::Unquoted,
        logical: LogicalOp::Plain,
        paren_level: 0,
        brace_level: 0,
        math_paren_level: 0,
        math_expr: false,
        skip: false,
        vbrace: false,
        method: false,
        variable: false,
    }
}

/// The scan at the start of a statement.
pub open spec fn begin(machine: Machine) -> Scan {
    Scan { machine, first_arg_found: false, error: None, last: None }
}

/// A byte of `[A-Za-z0-9_]`.
pub open spec fn is_name_byte(b: u8) -> bool {
    (0x30 <= b && b <= 0x39) || (0x41 <= b && b <= 0x5a) || (0x61 <= b && b <= 0x7a) || b
        == UNDERSCORE
}

/// A byte of `[A-Za-z0-9_:,}]`, the bytes that may stand in a braced variable.
pub open spec fn is_braced_byte(b: u8) -> bool {
    is_name_byte(b) || b == COLON || b == COMMA || b == CLOSE_BRACE
}

/// Keeps the first error of a statement.
pub open spec fn record(s: Scan, fault: Fault) -> Scan {
    if s.error is None {
        Scan { error: Some(fault), ..s }
    } else {
        s
    }
}

/// The scan with another machine.
pub open spec fn with(s: Scan, machine: Machine) -> Scan {
    Scan { machine, ..s }
}

/// What `(` does, at position `pos` counted from 1, before the byte `next`.
pub open spec fn open_paren(s: Scan, next: Option<u8>, pos: nat) -> Scan {
    let m = s.machine;
    if m.math_expr {
        with(s, Machine { math_paren_level: m.math_paren_level + 1, ..m })
    } else if !m.variable {
        if m.quotes == Quotes::Unquoted {
            record(s, Fault::InvalidCharacter(OPEN_PAREN as char, pos))
        } else {
            s
        }
    } else if m.method || s.last == Some(DOLLAR) {
        if next == Some(OPEN_PAREN) {
            with(s, Machine { variable: false, math_expr: true, math_paren_level: -1, ..m })
        } else {
            with(s, Machine { variable: false, paren_level: m.paren_level + 1, ..m })
        }
    } else if s.last == Some(AT) {
        with(s, Machine { paren_level: m.paren_level + 1, ..m })
    } else {
        with(s, Machine { method: true, variable: false, ..m })
    }
}

/// What `)` does, at position `pos` counted from 1, before the byte `next`.
pub open spec fn close_paren(s: Scan, next: Option<u8>, pos: nat) -> Scan {
    let m = s.machine;
    if m.math_expr {
        if m.math_paren_level == 0 {
            match next {
                Some(n) => if n == CLOSE_PAREN {
                    with(s, Machine { math_expr: false, skip: true, ..m })
                } else {
                    record(s, Fault::InvalidCharacter(n as char, pos))
                },
                None => record(s, Fault::UnterminatedArithmetic),
            }
        } else {
            with(s, Machine { math_paren_level: m.math_paren_level - 1, ..m })
        }
    } else if m.method && m.paren_level == 0 {
        with(s, Machine { method: false, ..m })
    } else if m.paren_level == 0 {
        if m.quotes == Quotes::Unquoted {
            record(s, Fault::InvalidCharacter(CLOSE_PAREN as char, pos))
        } else {
            s
        }
    } else {
        with(s, Machine { paren_level: m.paren_level - 1, ..m })
    }
}

/// What a byte with no meaning of its own does: it ends a variable's name
/// unless it can stand in one.
pub open spec fn plain_byte(s: Scan, c: u8) -> Scan {
    let m = s.machine;
    if m.variable && !is_name_byte(c) {
        with(s, Machine { variable: false, ..m })
    } else {
        s
    }
}

/// What `'` does: it opens or closes single quotes, and does nothing inside
/// double quotes.
pub open spec fn apostrophe(s: Scan) -> Scan {
    let m = s.machine;
    if m.quotes == Quotes::Single {
        with(s, Machine { quotes: Quotes::Unquoted, ..m })
    } else if m.quotes == Quotes::Unquoted {
        with(s, Machine { quotes: Quotes::Single, variable: false, ..m })
    } else {
        s
    }
}

/// What `"` does outside single quotes: it opens or closes double quotes.
pub open spec fn quote(s: Scan) -> Scan {
    let m = s.machine;
    if m.quotes == Quotes::Double {
        with(s, Machine { quotes: Quotes::Unquoted, ..m })
    } else {
        with(s, Machine { quotes: Quotes::Double, variable: false, ..m })
    }
}

/// What `{` does: behind `$` or `@` it opens a braced variable, else outside
/// quotes a brace expansion.
pub open spec fn open_brace(s: Scan) -> Scan {
    let m = s.machine;
    if s.last == Some(DOLLAR) || s.last == Some(AT) {
        with(s, Machine { vbrace: true, ..m })
    } else if m.quotes == Quotes::Unquoted {
        with(s, Machine { brace_level: m.brace_level + 1, ..m })
    } else {
        plain_byte(s, OPEN_BRACE)
    }
}

/// What `}` does, at position `pos` counted from 1: it closes a braced
/// variable, else outside quotes a brace expansion, which must be open.
pub open spec fn close_brace(s: Scan, pos: nat) -> Scan {
    let m = s.machine;
    if m.vbrace {
        with(s, Machine { vbrace: false, ..m })
    } else if m.quotes == Quotes::Unquoted {
        if m.brace_level == 0 {
            record(s, Fault::InvalidCharacter(CLOSE_BRACE as char, pos))
        } else {
            with(s, Machine { brace_level: m.brace_level - 1, ..m })
        }
    } else {
        plain_byte(s, CLOSE_BRACE)
    }
}

/// Whether a statement can end here: outside quotes and brackets.
pub open spec fn at_top(m: Machine) -> bool {
    m.quotes == Quotes::Unquoted && m.paren_level == 0
}

/// What a byte does that is neither escaped, nor a quote, nor inside single
/// quotes, nor refused inside a braced variable. `token` is the statement so far
/// without the white space round it.
pub open spec fn meaning(s: Scan, c: u8, next: Option<u8>, pos: nat, token: Seq<u8>) -> Step {
    let m = s.machine;
    if c == AT || c == DOLLAR {
        Step::Next(with(s, Machine { variable: true, ..m }))
    } else if c == OPEN_BRACE {
        Step::Next(open_brace(s))
    } else if c == CLOSE_BRACE {
        Step::Next(close_brace(s, pos))
    } else if c == OPEN_PAREN {
        Step::Next(open_paren(s, next, pos))
    } else if c == CLOSE_PAREN {
        Step::Next(close_paren(s, next, pos))
    } else if c == SEMICOLON && at_top(m) {
        Step::Stop(Ending::Terminator)
    } else if c == AMPERSAND && at_top(m) {
        if next == Some(AMPERSAND) {
            Step::Stop(Ending::And)
        } else {
            Step::Next(s)
        }
    } else if c == PIPE && at_top(m) {
        if next == Some(PIPE) {
            Step::Stop(Ending::Or)
        } else {
            Step::Next(s)
        }
    } else if c == SPACE && !s.first_arg_found {
        if token.len() == 0 {
            Step::Next(s)
        } else if token == "else".spec_bytes() {
            Step::Stop(Ending::Else)
        } else {
            Step::Next(Scan { first_arg_found: true, ..s })
        }
    } else {
        Step::Next(plain_byte(s, c))
    }
}

/// What the byte `c` does when it is not escaped, by the first rule that
/// applies: escape, quotes, the bytes refused in a braced variable, then the
/// byte's own meaning. `pos` is its position counted from 1 and `next` the byte
/// behind it.
pub open spec fn act(s: Scan, c: u8, next: Option<u8>, pos: nat, token: Seq<u8>) -> Step {
    let m = s.machine;
    if c == BACKSLASH {
        Step::Next(with(s, Machine { skip: true, ..m }))
    } else if c == APOSTROPHE {
        Step::Next(apostrophe(s))
    } else if m.quotes == Quotes::Single {
        Step::Next(s)
    } else if c == QUOTE {
        Step::Next(quote(s))
    } else if m.vbrace && !is_braced_byte(c) {
        Step::Next(record(s, Fault::InvalidCharacter(c as char, pos)))
    } else {
        meaning(s, c, next, pos, token)
    }
}

/// What the byte `c` does. An escaped byte does nothing but end the escape.
pub open spec fn step(s: Scan, c: u8, next: Option<u8>, pos: nat, token: Seq<u8>) -> Step {
    if s.machine.skip {
        Step::Next(Scan { machine: Machine { skip: false, ..s.machine }, last: None, ..s })
    } else {
        match act(s, c, next, pos, token) {
            Step::Next(after) => Step::Next(Scan { last: Some(c), ..after }),
            Step::Stop(ending) => Step::Stop(ending),
        }
    }
}

/// The error for what is still open at the end of the text: brackets first,
/// then a method call, a braced variable, braces, and arithmetic last.
pub open spec fn leftover(m: Machine) -> Option<Fault> {
    if m.paren_level != 0 {
        Some(Fault::UnterminatedSubshell)
    } else if m.method {
        Some(Fault::UnterminatedMethod)
    } else if m.vbrace {
        Some(Fault::UnterminatedBracedVar)
    } else if m.brace_level != 0 {
        Some(Fault::UnterminatedBrace)
    } else if m.math_expr {
        Some(Fault::UnterminatedArithmetic)
    } else {
        None
    }
}

/// The error for a last statement that begins with what cannot begin a
/// command.
pub open spec fn misplaced(tail: Seq<u8>) -> Option<Fault> {
    if tail.len() == 0 {
        None
    } else {
        let b = tail[0];
        if b == GREATER || b == LESS || b == CARET {
            Some(Fault::ExpectedCommandButFound("redirection"@))
        } else if b == PIPE {
            Some(Fault::ExpectedCommandButFound("pipe"@))
        } else if b == AMPERSAND {
            Some(Fault::ExpectedCommandButFound("&"@))
        } else if b == STAR || b == PERCENT || b == QUESTION || b == OPEN_BRACE || b
            == CLOSE_BRACE {
            Some(Fault::IllegalCommandName(tail))
        } else {
            None
        }
    }
}

/// The last statement, or the error that stands for it: the first error of the
/// scan, else what is still open, else what the statement wrongly begins with.
pub open spec fn last_item(s: Scan, tail: Seq<u8>) -> Result<Piece, Fault> {
    match s.error {
        Some(fault) => Err(fault),
        None => match leftover(s.machine) {
            Some(fault) => Err(fault),
            None => match misplaced(tail) {
                Some(fault) => Err(fault),
                None => Ok(Piece { logical: s.machine.logical, text: tail }),
            },
        },
    }
}

/// What the end of the text leaves, `start` being where the statement began.
pub open spec fn at_end(text: Seq<u8>, start: int, s: Scan) -> Outcome {
    if start >= text.len() {
        Outcome { machine: s.machine, read: text.len() as int, item: None }
    } else {
        let item = last_item(s, spec_trim(text.skip(start)));
        Outcome {
            machine: if item is Ok {
                Machine { logical: LogicalOp::Plain, ..s.machine }
            } else {
                s.machine
            },
            read: text.len() as int,
            item: Some(item),
        }
    }
}

/// What a statement's end at the byte `i` leaves.
pub open spec fn at_stop(text: Seq<u8>, start: int, i: int, s: Scan, ending: Ending) -> Outcome {
    let piece = Piece { logical: s.machine.logical, text: spec_trim(text.subrange(start, i)) };
    let item = match s.error {
        Some(fault) => Err(fault),
        None => Ok(piece),
    };
    match ending {
        Ending::Terminator => Outcome {
            machine: Machine { logical: LogicalOp::Plain, ..s.machine },
            read: i + 1,
            item: Some(item),
        },
        Ending::And => Outcome {
            machine: Machine { logical: LogicalOp::And, ..s.machine },
            read: i + 2,
            item: Some(item),
        },
        Ending::Or => Outcome {
            machine: Machine { logical: LogicalOp::Or, ..s.machine },
            read: i + 2,
            item: Some(item),
        },
        Ending::Else => Outcome {
            machine: Machine { logical: LogicalOp::Plain, ..s.machine },
            read: i + 1,
            item: Some(Ok(Piece { logical: LogicalOp::Plain, text: "else".spec_bytes() })),
        },
    }
}

/// The byte behind position `i`, if there is one.
pub open spec fn peek(text: Seq<u8>, i: int) -> Option<u8> {
    if 0 <= i + 1 < text.len() {
        Some(text[i + 1])
    } else {
        None
    }
}

/// What the byte at `i` does to a scan of the statement that began at `start`.
pub open spec fn step_at(text: Seq<u8>, start: int, i: int, s: Scan) -> Step {
    step(s, text[i], peek(text, i), (i + 1) as nat, spec_trim(text.subrange(start, i)))
}

/// Reads on from the byte `i` in a statement that began at `start`.
pub open spec fn scan(text: Seq<u8>, start: int, i: int, s: Scan) -> Outcome
    decreases text.len() - i,
{
    if i < 0 || i >= text.len() {
        at_end(text, start, s)
    } else {
        match step_at(text, start, i, s) {
            Step::Next(after) => scan(text, start, i + 1, after),
            Step::Stop(ending) => at_stop(text, start, i, s, ending),
        }
    }
}

/// One call for a statement, from position `read`.
pub open spec fn next_item(text: Seq<u8>, read: int, machine: Machine) -> Outcome {
    scan(text, read, read, begin(machine))
}

/// Everything the text yields from position `read` on, in order. A call that
/// returns a statement or an error always moves on (`lemma_next_item_moves`),
/// so the condition on `read` only serves to show that this ends.
pub open spec fn statements(text: Seq<u8>, read: int, machine: Machine) -> Seq<
    Result<Piece, Fault>,
>
    decreases text.len() - read,
{
    let o = next_item(text, read, machine);
    match o.item {
        Some(item) => if read < o.read <= text.len() {
            seq![item] + statements(text, o.read, o.machine)
        } else {
            seq![item]
        },
        None => Seq::empty(),
    }
}

/// A scan ends behind the byte it began at, and within the text.
pub proof fn lemma_scan_moves(text: Seq<u8>, start: int, i: int, s: Scan)
    requires
        0 <= start <= i <= text.len(),
    ensures
        scan(text, start, i, s).item is Some ==> start < scan(text, start, i, s).read
            <= text.len(),
        scan(text, start, i, s).item is None ==> start == text.len() && scan(
            text,
            start,
            i,
            s,
        ).read == start,
    decreases text.len() - i,
{
    if i < text.len() {
        match step_at(text, start, i, s) {
            Step::Next(after) => {
                lemma_scan_moves(text, start, i + 1, after);
            },
            Step::Stop(ending) => {},
        }
    }
}

/// A call that returns a statement or an error moves on in the text, and a
/// call that returns nothing was made at the end of the text.
pub proof fn lemma_next_item_moves(text: Seq<u8>, read: int, machine: Machine)
    requires
        0 <= read <= text.len(),
    ensures
        next_item(text, read, machine).item is Some ==> read < next_item(
            text,
            read,
            machine,
        ).read <= text.len(),
        next_item(text, read, machine).item is None ==> read == text.len() && next_item(
            text,
            read,
            machine,
        ).read == read,
{
    lemma_scan_moves(text, read, read, begin(machine));
}

} // verus!
