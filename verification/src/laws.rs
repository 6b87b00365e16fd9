//! What holds of the statement lexer on every text.
use crate::machine::{
    act, at_top, begin, close_paren, fresh, last_item, leftover, misplaced, next_item,
    open_paren, peek, scan, statements, step, step_at, Fault, LogicalOp, Machine, Piece, Quotes,
    Scan, Step, AMPERSAND, BACKSLASH, CLOSE_PAREN, OPEN_PAREN, PIPE, SEMICOLON, SPACE,
};
use crate::text::{lemma_trim_of_longer, spec_trim};
use vstd::prelude::*;
use vstd::string::StringSliceAdditionalSpecFns;

verus! {

/// An escape changes nothing: behind a backslash that is not itself escaped,
/// any byte leaves the machine, the first error and the first word as they were
/// before the backslash, ends no statement and is forgotten as the byte before.
pub proof fn lemma_escape_changes_nothing(
    s: Scan,
    c: u8,
    next_of_backslash: Option<u8>,
    next_of_byte: Option<u8>,
    pos: nat,
    token_at_backslash: Seq<u8>,
    token_at_byte: Seq<u8>,
)
    requires
        !s.machine.skip,
    ensures
        step(s, BACKSLASH, next_of_backslash, pos, token_at_backslash) is Next,
        step(
            step(s, BACKSLASH, next_of_backslash, pos, token_at_backslash)->Next_0,
            c,
            next_of_byte,
            pos + 1,
            token_at_byte,
        ) == Step::Next(Scan { last: None, ..s }),
{
}

/// In a text, an escape changes nothing: to read on from a backslash that is
/// not itself escaped is to read on from behind the byte that follows it.
pub proof fn lemma_escape_in_text(text: Seq<u8>, start: int, i: int, s: Scan)
    requires
        0 <= start <= i,
        i + 1 < text.len(),
        text[i] == BACKSLASH,
        !s.machine.skip,
    ensures
        scan(text, start, i, s) == scan(text, start, i + 2, Scan { last: None, ..s }),
{
    lemma_escape_changes_nothing(
        s,
        text[i + 1],
        peek(text, i),
        peek(text, i + 1),
        (i + 1) as nat,
        spec_trim(text.subrange(start, i)),
        spec_trim(text.subrange(start, i + 1)),
    );
    reveal_with_fuel(scan, 3);
}

/// What is still open at the end of the text is reported in a fixed order:
/// brackets, then a method call, then a braced variable, then braces, then
/// arithmetic.
pub proof fn lemma_leftover_order(m: Machine)
    ensures
        m.paren_level != 0 ==> leftover(m) == Some(Fault::UnterminatedSubshell),
        m.paren_level == 0 && m.method ==> leftover(m) == Some(Fault::UnterminatedMethod),
        m.paren_level == 0 && !m.method && m.vbrace ==> leftover(m) == Some(
            Fault::UnterminatedBracedVar,
        ),
        m.paren_level == 0 && !m.method && !m.vbrace && m.brace_level != 0 ==> leftover(m)
            == Some(Fault::UnterminatedBrace),
        m.paren_level == 0 && !m.method && !m.vbrace && m.brace_level == 0 && m.math_expr
            ==> leftover(m) == Some(Fault::UnterminatedArithmetic),
        m.paren_level == 0 && !m.method && !m.vbrace && m.brace_level == 0 && !m.math_expr
            ==> leftover(m) is None,
{
}

/// At the end of the text the first error of the scan comes first, and without
/// one, what is still open is the error, whatever the statement holds.
pub proof fn lemma_last_item_order(s: Scan, tail: Seq<u8>)
    ensures
        s.error is Some ==> last_item(s, tail) == Err::<Piece, Fault>(s.error->0),
        s.error is None && leftover(s.machine) is Some ==> last_item(s, tail) == Err::<
            Piece,
            Fault,
        >(leftover(s.machine)->0),
        s.error is None && leftover(s.machine) is None && misplaced(tail) is None ==> last_item(
            s,
            tail,
        ) == Ok::<Piece, Fault>(Piece { logical: s.machine.logical, text: tail }),
{
}

/// A statement ends at `;`, `&&` or `||` only outside quotes and brackets.
pub proof fn lemma_boundary_at_top(s: Scan, c: u8, next: Option<u8>, pos: nat, token: Seq<u8>)
    ensures
        step(s, c, next, pos, token) matches Step::Stop(ending) ==> {
            &&& !s.machine.skip
            &&& s.machine.quotes != Quotes::Single
            &&& ending is Terminator ==> c == SEMICOLON && at_top(s.machine)
            &&& ending is And ==> c == AMPERSAND && next == Some(AMPERSAND) && at_top(s.machine)
            &&& ending is Or ==> c == PIPE && next == Some(PIPE) && at_top(s.machine)
            &&& ending is Else ==> c == SPACE && token == "else".spec_bytes() && token.len() > 0
        },
{
}

/// The first error of a statement is kept: once one is recorded, no byte
/// replaces it.
pub proof fn lemma_first_error_is_kept(
    s: Scan,
    c: u8,
    next: Option<u8>,
    pos: nat,
    token: Seq<u8>,
)
    requires
        s.error is Some,
    ensures
        step(s, c, next, pos, token) matches Step::Next(after) ==> after.error == s.error,
{
}

proof fn lemma_scan_keeps_connective(text: Seq<u8>, start: int, i: int, s: Scan)
    requires
        0 <= start <= i <= text.len(),
    ensures
        scan(text, start, i, s).item matches Some(Ok(piece)) ==> piece.logical
            == s.machine.logical || piece == (Piece {
            logical: LogicalOp::Plain,
            text: "else".spec_bytes(),
        }),
    decreases text.len() - i,
{
    if i < text.len() {
        match step_at(text, start, i, s) {
            Step::Next(after) => {
                lemma_scan_keeps_connective(text, start, i + 1, after);
            },
            Step::Stop(ending) => {},
        }
    }
}

/// A connective goes with the statement behind it: a statement has the
/// connective that the call before left, whichever operator ends the
/// statement itself. The one exception is the statement `else` that is split
/// off, which has none.
pub proof fn lemma_connective_goes_behind(text: Seq<u8>, read: int, machine: Machine)
    requires
        0 <= read <= text.len(),
    ensures
        next_item(text, read, machine).item matches Some(Ok(piece)) ==> piece.logical
            == machine.logical || piece == (Piece {
            logical: LogicalOp::Plain,
            text: "else".spec_bytes(),
        }),
{
    lemma_scan_keeps_connective(text, read, read, begin(machine));
}

/// No counter is below zero.
pub open spec fn settled(m: Machine) -> bool {
    m.paren_level >= 0 && m.brace_level >= 0 && m.math_paren_level >= 0
}

/// Between the two brackets that open arithmetic, and only there, the count
/// of arithmetic brackets is -1: the second bracket is the next byte, and it
/// will be counted.
pub open spec fn in_range(text: Seq<u8>, i: int, m: Machine) -> bool {
    &&& m.paren_level >= 0
    &&& m.brace_level >= 0
    &&& m.math_paren_level >= -1
    &&& m.math_paren_level == -1 ==> {
        &&& m.math_expr
        &&& !m.skip
        &&& !m.vbrace
        &&& m.quotes != Quotes::Single
        &&& 0 <= i < text.len()
        &&& text[i] == OPEN_PAREN
    }
}

proof fn lemma_act_stays_in_range(text: Seq<u8>, i: int, s: Scan, token: Seq<u8>)
    requires
        0 <= i < text.len(),
        in_range(text, i, s.machine),
        !s.machine.skip,
    ensures
        match act(s, text[i], peek(text, i), (i + 1) as nat, token) {
            Step::Next(after) => in_range(text, i + 1, after.machine),
            Step::Stop(_) => settled(s.machine),
        },
{
    let c = text[i];
    let m = s.machine;
    if m.quotes == Quotes::Single || m.vbrace {
    } else if c == OPEN_PAREN {
        assert(in_range(text, i + 1, open_paren(s, peek(text, i), (i + 1) as nat).machine));
    } else if c == CLOSE_PAREN {
        assert(in_range(text, i + 1, close_paren(s, peek(text, i), (i + 1) as nat).machine));
    }
}

proof fn lemma_scan_stays_in_range(text: Seq<u8>, start: int, i: int, s: Scan)
    requires
        0 <= start <= i <= text.len(),
        in_range(text, i, s.machine),
    ensures
        settled(scan(text, start, i, s).machine),
    decreases text.len() - i,
{
    if i < text.len() {
        if !s.machine.skip {
            lemma_act_stays_in_range(text, i, s, spec_trim(text.subrange(start, i)));
        }
        match step_at(text, start, i, s) {
            Step::Next(after) => {
                lemma_scan_stays_in_range(text, start, i + 1, after);
            },
            Step::Stop(ending) => {},
        }
    }
}

/// The counters stay in their range: from a machine with no counter below
/// zero, a call for a statement leaves a machine with no counter below zero.
/// While a statement is read the count of arithmetic brackets is -1 between
/// the two brackets that open arithmetic, and nowhere else below zero.
pub proof fn lemma_counters_stay_in_range(text: Seq<u8>, read: int, machine: Machine)
    requires
        0 <= read <= text.len(),
        settled(machine),
    ensures
        settled(next_item(text, read, machine).machine),
{
    lemma_scan_stays_in_range(text, read, read, begin(machine));
}

/// Whether the byte at `i` is escaped: it stands behind a backslash that is
/// not itself escaped.
pub open spec fn escaped(text: Seq<u8>, i: int) -> bool
    decreases i,
{
    if i <= 0 || i > text.len() {
        false
    } else {
        text[i - 1] == BACKSLASH && !escaped(text, i - 1)
    }
}

/// Whether `;`, `&&` or `||` begins at `i` and is not escaped.
pub open spec fn terminator_at(text: Seq<u8>, i: int) -> bool {
    &&& 0 <= i < text.len()
    &&& !escaped(text, i)
    &&& (text[i] == SEMICOLON || (i + 1 < text.len() && text[i] == AMPERSAND && text[i + 1]
        == AMPERSAND) || (i + 1 < text.len() && text[i] == PIPE && text[i + 1] == PIPE))
}

/// Whether the text holds no `;`, `&&` or `||` that is not escaped.
pub open spec fn free_of_terminators(text: Seq<u8>) -> bool {
    forall|i: int| 0 <= i < text.len() ==> !terminator_at(text, i)
}

/// Whether the first word of the text is `else` with a space behind it, and
/// more behind that.
pub open spec fn begins_with_else(text: Seq<u8>) -> bool {
    exists|i: int|
        0 <= i < text.len() - 1 && text[i] == SPACE && #[trigger] spec_trim(text.subrange(0, i))
            == "else".spec_bytes()
}

proof fn lemma_scan_to_end(text: Seq<u8>, i: int, s: Scan)
    requires
        0 <= i <= text.len(),
        text.len() > 0,
        free_of_terminators(text),
        !begins_with_else(text),
        s.machine.logical == LogicalOp::Plain,
        escaped(text, i) ==> s.machine.skip,
        s.machine.skip && i < text.len() ==> escaped(text, i) || text[i] == CLOSE_PAREN,
    ensures
        scan(text, 0, i, s).read == text.len(),
        scan(text, 0, i, s).item is Some,
        scan(text, 0, i, s).item->0 is Ok ==> scan(text, 0, i, s).item->0 == Ok::<Piece, Fault>(
            Piece { logical: LogicalOp::Plain, text: spec_trim(text) },
        ),
    decreases text.len() - i,
{
    if i < text.len() {
        assert(!terminator_at(text, i));
        let token = spec_trim(text.subrange(0, i));
        if i < text.len() - 1 && text[i] == SPACE && token == "else".spec_bytes() {
            assert(begins_with_else(text));
        }
        match step_at(text, 0, i, s) {
            Step::Next(after) => {
                assert(escaped(text, i + 1) == (text[i] == BACKSLASH && !escaped(text, i)));
                lemma_scan_to_end(text, i + 1, after);
            },
            Step::Stop(ending) => {
                lemma_boundary_at_top(s, text[i], peek(text, i), (i + 1) as nat, token);
                assert(text =~= text.subrange(0, i).push(SPACE));
                lemma_trim_of_longer(text.subrange(0, i));
            },
        }
    } else {
        assert(text.skip(0) =~= text);
    }
}

/// A text without `;`, `&&` and `||` that are not escaped yields one
/// statement, with no connective, which is the whole text without the white
/// space round it; or one error in its place. Left out are the empty text,
/// which yields nothing, and a text whose first word is `else` with a space and
/// more behind it, which yields `else` and then the rest.
pub proof fn lemma_single_statement(text: Seq<u8>)
    requires
        text.len() > 0,
        free_of_terminators(text),
        !begins_with_else(text),
    ensures
        statements(text, 0, fresh()).len() == 1,
        statements(text, 0, fresh())[0] is Ok ==> statements(text, 0, fresh())[0] == Ok::<
            Piece,
            Fault,
        >(Piece { logical: LogicalOp::Plain, text: spec_trim(text) }),
{
    lemma_scan_to_end(text, 0, begin(fresh()));
    let o = next_item(text, 0, fresh());
    let after = next_item(text, o.read, o.machine);
    assert(after.item is None);
    assert(statements(text, o.read, o.machine) =~= Seq::empty());
    assert(statements(text, 0, fresh()) =~= seq![o.item->0]);
}

} // verus!
