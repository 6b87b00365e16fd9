//! Turns the text of a statement into a statement.
//!
//! The text alone decides the kind of statement. Three things are left to
//! later stages, which the caller supplies: compiling a command line into a
//! pipeline, splitting text into words, and reading a list of parameters.
use crate::classify::{bytes_of_part, classify, spec_classify, Form, Shape};
use crate::splitter::{StatementError, StatementVariant};
use crate::statement::{bytes_of_each, Case, ElseIf, Statement, StatementView};
use crate::text::bytes_of;
use crate::types::TypeArg;
use vstd::prelude::*;
use vstd::string::{StringExecFns, StringSliceAdditionalSpecFns};

verus! {

/// The stages behind the classifier: what the shell does with the parts of a
/// statement that this crate only cuts out. Nothing is known of what they
/// answer, and every answer is taken.
pub trait Stages {
    /// A compiled pipeline.
    type Pipeline;

    /// Compiles a command line, or says why it cannot be compiled.
    fn pipeline(&self, text: &str) -> Result<Self::Pipeline, String>;

    /// Splits text into words.
    fn arguments(&self, text: &str) -> Vec<String>;

    /// Reads a list of parameters, or says why it cannot be read.
    fn parameters(&self, text: &str) -> Result<Vec<TypeArg>, String>;
}

/// What went wrong with a statement. Its statement is inert, and the script
/// goes on.
#[derive(Debug, PartialEq)]
pub enum Diagnostic {
    /// `for`, `match` or `case` with nothing behind it.
    Incomplete,
    /// A command line that cannot be compiled, and why.
    Syntax(String),
    /// `for` without a variable or without `in`.
    ForLoop,
    /// A name that cannot name a function.
    FunctionName(String),
    /// A list of parameters that cannot be read, and why.
    FunctionArguments(String),
    /// A structural error in the text.
    Lexical(StatementError),
}

impl Diagnostic {
    /// The line that reports what went wrong.
    pub open spec fn spec_message(self) -> Seq<char> {
        match self {
            Diagnostic::Incomplete => "ion: syntax error: incomplete control flow statement"@,
            Diagnostic::Syntax(why) => "ion: syntax error: "@ + why@,
            Diagnostic::ForLoop => "ion: syntax error: incorrect for loop syntax"@,
            Diagnostic::FunctionName(name) => "ion: syntax error: '"@ + name@
                + "' is not a valid function name\n"@
                + "     Function names may only contain alphanumeric characters"@,
            Diagnostic::FunctionArguments(why) => "ion: function argument error: "@ + why@,
            Diagnostic::Lexical(error) => "ion: "@ + error.spec_message(),
        }
    }

    /// The line that reports what went wrong.
    pub fn message(&self) -> (r: String)
        ensures
            r@ == self.spec_message(),
    {
        match self {
            Diagnostic::Incomplete => {
                "ion: syntax error: incomplete control flow statement".to_owned()
            },
            Diagnostic::Syntax(why) => {
                let mut line = "ion: syntax error: ".to_owned();
                line.append(why.as_str());
                line
            },
            Diagnostic::ForLoop => "ion: syntax error: incorrect for loop syntax".to_owned(),
            Diagnostic::FunctionName(name) => {
                let mut line = "ion: syntax error: '".to_owned();
                line.append(name.as_str());
                line.append("' is not a valid function name\n");
                line.append("     Function names may only contain alphanumeric characters");
                line
            },
            Diagnostic::FunctionArguments(why) => {
                let mut line = "ion: function argument error: ".to_owned();
                line.append(why.as_str());
                line
            },
            Diagnostic::Lexical(error) => {
                let mut line = "ion: ".to_owned();
                line.append(error.message().as_str());
                line
            },
        }
    }
}

/// A statement, and what went wrong with it if anything did.
#[derive(Debug, PartialEq)]
pub struct Parsed<P> {
    pub statement: Statement<P>,
    pub diagnostic: Option<Diagnostic>,
}

/// The statements that are made of a compiled command line.
#[derive(Clone, Copy, Debug, PartialEq, Eq, Structural)]
pub enum Keyword {
    If,
    ElseIf,
    While,
    Pipeline,
}

/// The code of the statement that stands for a structural error.
pub const FAILURE: i32 = -1;

/// The statement with the keyword `keyword` and the compiled command line
/// `pipeline`, its bodies empty.
pub open spec fn block<P>(keyword: Keyword, pipeline: P) -> StatementView<P> {
    match keyword {
        Keyword::If => StatementView::If {
            expression: pipeline,
            success: Seq::empty(),
            else_if: Seq::empty(),
            failure: Seq::empty(),
        },
        Keyword::ElseIf => StatementView::ElseIf { expression: pipeline, success: Seq::empty() },
        Keyword::While => StatementView::While { expression: pipeline, statements: Seq::empty() },
        Keyword::Pipeline => StatementView::Pipeline(pipeline),
    }
}

/// Whether `r` is the statement `view` with nothing wrong.
pub open spec fn is_sound<P>(r: Parsed<P>, view: StatementView<P>) -> bool {
    r.statement@ == view && r.diagnostic is None
}

/// Whether `r` is the inert statement with `diagnostic`.
pub open spec fn is_inert<P>(r: Parsed<P>, diagnostic: Diagnostic) -> bool {
    r.statement@ == StatementView::<P>::Default && r.diagnostic == Some(diagnostic)
}

/// Whether `r` is what a command line under `keyword` gives whose compilation
/// ended in `outcome`.
pub open spec fn collected<P>(keyword: Keyword, outcome: Result<P, String>, r: Parsed<P>) -> bool {
    match outcome {
        Ok(pipeline) => is_sound(r, block(keyword, pipeline)),
        Err(why) => is_inert(r, Diagnostic::Syntax(why)),
    }
}

/// Whether `r` is the loop over `values` with the variable `variable`.
pub open spec fn looped<P>(variable: Seq<u8>, values: Seq<String>, r: Parsed<P>) -> bool {
    is_sound(
        r,
        StatementView::For { variable, values: bytes_of_each(values), statements: Seq::empty() },
    )
}

/// Whether `r` is what the function `name` gives whose list of parameters was
/// read with `outcome`.
pub open spec fn defined<P>(
    name: Seq<u8>,
    description: Option<Seq<u8>>,
    outcome: Result<Vec<TypeArg>, String>,
    r: Parsed<P>,
) -> bool {
    match outcome {
        Ok(args) => is_sound(
            r,
            StatementView::Function { name, description, args: args@, statements: Seq::empty() },
        ),
        Err(why) => is_inert(r, Diagnostic::FunctionArguments(why)),
    }
}

/// Whether `outcome` is what `stages` gave when it was asked to compile the
/// command line `text`.
pub open spec fn compiled<S: Stages>(
    stages: &S,
    text: Seq<u8>,
    outcome: Result<S::Pipeline, String>,
) -> bool {
    exists|asked: &str| #[trigger]
        call_ensures(S::pipeline, (stages, asked), outcome) && asked.spec_bytes() == text
}

/// Whether `words` is what `stages` gave when it was asked to split `text`.
pub open spec fn split_up<S: Stages>(stages: &S, text: Seq<u8>, words: Vec<String>) -> bool {
    exists|asked: &str| #[trigger]
        call_ensures(S::arguments, (stages, asked), words) && asked.spec_bytes() == text
}

/// Whether `outcome` is what `stages` gave when it was asked to read the list
/// of parameters `text`.
pub open spec fn read<S: Stages>(
    stages: &S,
    text: Seq<u8>,
    outcome: Result<Vec<TypeArg>, String>,
) -> bool {
    exists|asked: &str| #[trigger]
        call_ensures(S::parameters, (stages, asked), outcome) && asked.spec_bytes() == text
}

/// Whether a statement of the form `shape` needs a later stage.
pub open spec fn needs_stage(shape: Shape) -> bool {
    shape is If || shape is ElseIf || shape is While || shape is Pipeline || shape is For
        || shape is Function
}

/// Whether `r` is what a statement of the form `shape` gives, where the text
/// alone decides: the statement with its text, its bodies empty, or the inert
/// statement with what is wrong.
pub open spec fn settled_as<P>(shape: Shape, r: Parsed<P>) -> bool {
    match shape {
        Shape::End => is_sound(r, StatementView::End),
        Shape::Break => is_sound(r, StatementView::Break),
        Shape::Continue => is_sound(r, StatementView::Continue),
        Shape::Incomplete => is_inert(r, Diagnostic::Incomplete),
        Shape::Let(expression) => is_sound(r, StatementView::Let { expression }),
        Shape::Export(expression) => is_sound(r, StatementView::Export(expression)),
        Shape::Else => is_sound(r, StatementView::Else),
        Shape::MalformedFor => is_inert(r, Diagnostic::ForLoop),
        Shape::Case(value) => is_sound(r, StatementView::Case { value, statements: Seq::empty() }),
        Shape::Match(expression) => is_sound(
            r,
            StatementView::Match { expression, cases: Seq::empty() },
        ),
        Shape::InvalidName(name) => r.statement@ == StatementView::<P>::Default && (
        r.diagnostic matches Some(Diagnostic::FunctionName(text)) && bytes_of(text@) == name),
        Shape::Blank => is_sound(r, StatementView::Default),
        _ => false,
    }
}

/// Whether `r` is what a statement of the form `shape` gives. Where the form
/// needs a later stage, `stages` was asked with the part of the text that the
/// form holds, and `r` is what the answer makes of it; else the text alone
/// decides.
pub open spec fn parsed_as<S: Stages>(shape: Shape, stages: &S, r: Parsed<S::Pipeline>) -> bool {
    match shape {
        Shape::If(text) => exists|outcome: Result<S::Pipeline, String>|
            compiled(stages, text, outcome) && #[trigger] collected(Keyword::If, outcome, r),
        Shape::ElseIf(text) => exists|outcome: Result<S::Pipeline, String>|
            compiled(stages, text, outcome) && #[trigger] collected(Keyword::ElseIf, outcome, r),
        Shape::While(text) => exists|outcome: Result<S::Pipeline, String>|
            compiled(stages, text, outcome) && #[trigger] collected(Keyword::While, outcome, r),
        Shape::Pipeline(text) => exists|outcome: Result<S::Pipeline, String>|
            compiled(stages, text, outcome) && #[trigger] collected(Keyword::Pipeline, outcome, r),
        Shape::For { variable, values } => exists|words: Vec<String>|
            split_up(stages, values, words) && #[trigger] looped(variable, words@, r),
        Shape::Function { name, args, description } => exists|
            outcome: Result<Vec<TypeArg>, String>,
        |
            read(stages, args, outcome) && #[trigger] defined(name, description, outcome, r),
        _ => settled_as(shape, r),
    }
}

/// A statement with nothing wrong.
fn sound<P>(statement: Statement<P>) -> (r: Parsed<P>)
    ensures
        r.statement == statement,
        r.diagnostic is None,
{
    Parsed { statement, diagnostic: None }
}

/// The inert statement, with what went wrong.
fn inert<P>(diagnostic: Diagnostic) -> (r: Parsed<P>)
    ensures
        is_inert(r, diagnostic),
{
    Parsed { statement: Statement::Default, diagnostic: Some(diagnostic) }
}

/// The statement under `keyword` for a command line whose compilation ended
/// in `outcome`: the statement with empty bodies, or the inert statement with
/// the reason.
pub fn collect<P>(keyword: Keyword, outcome: Result<P, String>) -> (r: Parsed<P>)
    ensures
        collected(keyword, outcome, r),
{
    match outcome {
        Ok(pipeline) => sound(
            match keyword {
                Keyword::If => Statement::If {
                    expression: pipeline,
                    success: Vec::new(),
                    else_if: Vec::new(),
                    failure: Vec::new(),
                },
                Keyword::ElseIf => Statement::ElseIf(
                    ElseIf { expression: pipeline, success: Vec::new() },
                ),
                Keyword::While => Statement::While { expression: pipeline, statements: Vec::new() },
                Keyword::Pipeline => Statement::Pipeline(pipeline),
            },
        ),
        Err(why) => inert(Diagnostic::Syntax(why)),
    }
}

/// The loop over `values` with the variable `variable`, its body empty.
pub fn for_loop<P>(variable: &str, values: Vec<String>) -> (r: Parsed<P>)
    ensures
        looped(variable.spec_bytes(), values@, r),
{
    sound(Statement::For { variable: variable.to_owned(), values, statements: Vec::new() })
}

/// The function `name` for a list of parameters that was read with `outcome`:
/// the function with an empty body, or the inert statement with the reason.
pub fn function<P>(
    name: &str,
    description: Option<&str>,
    outcome: Result<Vec<TypeArg>, String>,
) -> (r: Parsed<P>)
    ensures
        defined(name.spec_bytes(), bytes_of_part(description), outcome, r),
{
    match outcome {
        Ok(args) => {
            let description: Option<String> = match description {
                Some(text) => Some(text.to_owned()),
                None => None,
            };
            sound(
                Statement::Function {
                    name: name.to_owned(),
                    description,
                    args,
                    statements: Vec::new(),
                },
            )
        },
        Err(why) => inert(Diagnostic::FunctionArguments(why)),
    }
}

/// The statement of a form that the text alone decides; nothing for a form
/// that needs a later stage.
pub fn settle<P>(form: Form<'_>) -> (r: Option<Parsed<P>>)
    ensures
        match r {
            Some(parsed) => !needs_stage(form@) && settled_as(form@, parsed),
            None => needs_stage(form@),
        },
{
    match form {
        Form::End => Some(sound(Statement::End)),
        Form::Break => Some(sound(Statement::Break)),
        Form::Continue => Some(sound(Statement::Continue)),
        Form::Incomplete => Some(inert(Diagnostic::Incomplete)),
        Form::Let(expression) => Some(sound(Statement::Let { expression: expression.to_owned() })),
        Form::Export(expression) => Some(sound(Statement::Export(expression.to_owned()))),
        Form::Else => Some(sound(Statement::Else)),
        Form::MalformedFor => Some(inert(Diagnostic::ForLoop)),
        Form::Case(value) => {
            let value: Option<String> = match value {
                Some(text) => Some(text.to_owned()),
                None => None,
            };
            Some(sound(Statement::Case(Case { value, statements: Vec::new() })))
        },
        Form::Match(expression) => Some(
            sound(Statement::Match { expression: expression.to_owned(), cases: Vec::new() }),
        ),
        Form::InvalidName(name) => Some(inert(Diagnostic::FunctionName(name.to_owned()))),
        Form::Blank => Some(sound(Statement::Default)),
        _ => None,
    }
}

/// The statement of a form that needs a later stage: `stages` is asked once,
/// with the part of the text that the form holds.
fn stage<S: Stages>(form: Form<'_>, stages: &S) -> (r: Parsed<S::Pipeline>)
    requires
        needs_stage(form@),
    ensures
        parsed_as(form@, stages, r),
{
    match form {
        Form::If(text) => {
            let outcome = stages.pipeline(text);
            let r = collect(Keyword::If, outcome);
            assert(compiled(stages, form@->If_0, outcome)) by {
                assert(call_ensures(S::pipeline, (stages, text), outcome));
            }
            assert(collected(Keyword::If, outcome, r));
            r
        },
        Form::ElseIf(text) => {
            let outcome = stages.pipeline(text);
            let r = collect(Keyword::ElseIf, outcome);
            assert(compiled(stages, form@->ElseIf_0, outcome)) by {
                assert(call_ensures(S::pipeline, (stages, text), outcome));
            }
            assert(collected(Keyword::ElseIf, outcome, r));
            r
        },
        Form::While(text) => {
            let outcome = stages.pipeline(text);
            let r = collect(Keyword::While, outcome);
            assert(compiled(stages, form@->While_0, outcome)) by {
                assert(call_ensures(S::pipeline, (stages, text), outcome));
            }
            assert(collected(Keyword::While, outcome, r));
            r
        },
        Form::For { variable, values } => {
            let words = stages.arguments(values);
            let ghost given = words;
            let r = for_loop(variable, words);
            assert(split_up(stages, form@->values, given)) by {
                assert(call_ensures(S::arguments, (stages, values), given));
            }
            assert(looped(form@->variable, given@, r));
            r
        },
        Form::Function { name, args, description } => {
            let outcome = stages.parameters(args);
            let r = function(name, description, outcome);
            assert(read(stages, form@->args, outcome)) by {
                assert(call_ensures(S::parameters, (stages, args), outcome));
            }
            assert(defined(form@->name, form@->description, outcome, r));
            r
        },
        Form::Pipeline(text) => {
            let outcome = stages.pipeline(text);
            let r = collect(Keyword::Pipeline, outcome);
            assert(compiled(stages, form@->Pipeline_0, outcome)) by {
                assert(call_ensures(S::pipeline, (stages, text), outcome));
            }
            assert(collected(Keyword::Pipeline, outcome, r));
            r
        },
        _ => sound(Statement::Default),
    }
}

/// The statement that `code` is. Where its form needs a later stage, `stages`
/// is asked once, with the part of the text that the form holds.
pub fn parse<S: Stages>(code: &str, stages: &S) -> (r: Parsed<S::Pipeline>)
    ensures
        parsed_as(spec_classify(code.spec_bytes()), stages, r),
{
    let form = classify(code);
    match settle(form) {
        Some(parsed) => parsed,
        None => stage(form, stages),
    }
}

/// Whether `r` is what the lexer's result `item` gives: the statement of its
/// text, under `And` or `Or` where the connective asks for it; for an error,
/// the statement that stands for a failure.
pub open spec fn validated<S: Stages>(
    item: Result<StatementVariant<'_>, StatementError>,
    stages: &S,
    r: Parsed<S::Pipeline>,
) -> bool {
    match item {
        Ok(StatementVariant::And(text)) => exists|inner: Parsed<S::Pipeline>| #[trigger]
            parsed_as(spec_classify(text.spec_bytes()), stages, inner) && r.statement@
                == StatementView::And(inner.statement) && r.diagnostic == inner.diagnostic,
        Ok(StatementVariant::Or(text)) => exists|inner: Parsed<S::Pipeline>| #[trigger]
            parsed_as(spec_classify(text.spec_bytes()), stages, inner) && r.statement@
                == StatementView::Or(inner.statement) && r.diagnostic == inner.diagnostic,
        Ok(StatementVariant::Default(text)) => parsed_as(
            spec_classify(text.spec_bytes()),
            stages,
            r,
        ),
        Err(error) => r.statement@ == StatementView::<S::Pipeline>::Error(FAILURE)
            && r.diagnostic == Some(Diagnostic::Lexical(error)),
    }
}

/// The statement for one result of the lexer. An error of the lexer gives the
/// statement that stands for a failure; the script goes on.
pub fn parse_and_validate<S: Stages>(
    statement: Result<StatementVariant<'_>, StatementError>,
    stages: &S,
) -> (r: Parsed<S::Pipeline>)
    ensures
        validated(statement, stages, r),
{
    match statement {
        Ok(StatementVariant::And(text)) => {
            let inner = parse(text, stages);
            Parsed {
                statement: Statement::And(Box::new(inner.statement)),
                diagnostic: inner.diagnostic,
            }
        },
        Ok(StatementVariant::Or(text)) => {
            let inner = parse(text, stages);
            Parsed {
                statement: Statement::Or(Box::new(inner.statement)),
                diagnostic: inner.diagnostic,
            }
        },
        Ok(StatementVariant::Default(text)) => parse(text, stages),
        Err(error) => Parsed {
            statement: Statement::Error(FAILURE),
            diagnostic: Some(Diagnostic::Lexical(error)),
        },
    }
}

} // verus!
