//! Statements, as the classifier hands them on.
use crate::text::bytes_of;
use crate::types::TypeArg;
use vstd::prelude::*;

verus! {

/// One branch of a `match`.
#[derive(Debug, PartialEq)]
pub struct Case<P> {
    /// The value to compare with; `None` for the branch that takes the rest.
    pub value: Option<String>,
    pub statements: Vec<Statement<P>>,
}

/// An `else if` branch.
#[derive(Debug, PartialEq)]
pub struct ElseIf<P> {
    pub expression: P,
    pub success: Vec<Statement<P>>,
}

/// A statement. `P` is what the stage that compiles pipelines makes of a
/// command line. The bodies of blocks are empty when a statement leaves this
/// crate; others fill them.
#[derive(Debug, PartialEq)]
#[allow(inconsistent_fields)]
pub enum Statement<P> {
    End,
    Break,
    Continue,
    Let { expression: String },
    Export(String),
    If {
        expression: P,
        success: Vec<Statement<P>>,
        else_if: Vec<ElseIf<P>>,
        failure: Vec<Statement<P>>,
    },
    Else,
    ElseIf(ElseIf<P>),
    While { expression: P, statements: Vec<Statement<P>> },
    For { variable: String, values: Vec<String>, statements: Vec<Statement<P>> },
    Case(Case<P>),
    Match { expression: String, cases: Vec<Case<P>> },
    Function {
        name: String,
        description: Option<String>,
        args: Vec<TypeArg>,
        statements: Vec<Statement<P>>,
    },
    Pipeline(P),
    And(Box<Statement<P>>),
    Or(Box<Statement<P>>),
    Default,
    Error(i32),
}

/// The bytes of each string of a sequence.
pub open spec fn bytes_of_each(strings: Seq<String>) -> Seq<Seq<u8>> {
    strings.map_values(|s: String| bytes_of(s@))
}

/// The bytes of a string that may be missing.
pub open spec fn bytes_of_option(string: Option<String>) -> Option<Seq<u8>> {
    match string {
        Some(s) => Some(bytes_of(s@)),
        None => None,
    }
}

/// A statement as contracts speak of it: text as bytes, vectors as
/// sequences.
#[allow(inconsistent_fields)]
pub enum StatementView<P> {
    End,
    Break,
    Continue,
    Let { expression: Seq<u8> },
    Export(Seq<u8>),
    If {
        expression: P,
        success: Seq<Statement<P>>,
        else_if: Seq<ElseIf<P>>,
        failure: Seq<Statement<P>>,
    },
    Else,
    ElseIf { expression: P, success: Seq<Statement<P>> },
    While { expression: P, statements: Seq<Statement<P>> },
    For { variable: Seq<u8>, values: Seq<Seq<u8>>, statements: Seq<Statement<P>> },
    Case { value: Option<Seq<u8>>, statements: Seq<Statement<P>> },
    Match { expression: Seq<u8>, cases: Seq<Case<P>> },
    Function {
        name: Seq<u8>,
        description: Option<Seq<u8>>,
        args: Seq<TypeArg>,
        statements: Seq<Statement<P>>,
    },
    Pipeline(P),
    And(Statement<P>),
    Or(Statement<P>),
    Default,
    Error(i32),
}

impl<P> View for Statement<P> {
    type V = StatementView<P>;

    open spec fn view(&self) -> StatementView<P> {
        match self {
            Statement::End => StatementView::End,
            Statement::Break => StatementView::Break,
            Statement::Continue => StatementView::Continue,
            Statement::Let { expression } => StatementView::Let {
                expression: bytes_of(expression@),
            },
            Statement::Export(expression) => StatementView::Export(bytes_of(expression@)),
            Statement::If { expression, success, else_if, failure } => StatementView::If {
                expression: *expression,
                success: success@,
                else_if: else_if@,
                failure: failure@,
            },
            Statement::Else => StatementView::Else,
            Statement::ElseIf(branch) => StatementView::ElseIf {
                expression: branch.expression,
                success: branch.success@,
            },
            Statement::While { expression, statements } => StatementView::While {
                expression: *expression,
                statements: statements@,
            },
            Statement::For { variable, values, statements } => StatementView::For {
                variable: bytes_of(variable@),
                values: bytes_of_each(values@),
                statements: statements@,
            },
            Statement::Case(case) => StatementView::Case {
                value: bytes_of_option(case.value),
                statements: case.statements@,
            },
            Statement::Match { expression, cases } => StatementView::Match {
                expression: bytes_of(expression@),
                cases: cases@,
            },
            Statement::Function { name, description, args, statements } => StatementView::Function {
                name: bytes_of(name@),
                description: bytes_of_option(*description),
                args: args@,
                statements: statements@,
            },
            Statement::Pipeline(pipeline) => StatementView::Pipeline(*pipeline),
            Statement::And(statement) => StatementView::And(**statement),
            Statement::Or(statement) => StatementView::Or(**statement),
            Statement::Default => StatementView::Default,
            Statement::Error(code) => StatementView::Error(*code),
        }
    }
}

} // verus!
