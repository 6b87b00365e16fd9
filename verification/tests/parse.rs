use ion_parser::classify::{classify, is_valid_name, split_pattern, Form};
use ion_parser::parse::{
    collect, for_loop, function, parse, parse_and_validate, Diagnostic, Keyword, Parsed, Stages,
};
use ion_parser::splitter::{StatementError, StatementSplitter, StatementVariant};
use ion_parser::statement::{Case, ElseIf, Statement};
use ion_parser::types::{Primitive, TypeArg};

#[derive(Debug, PartialEq, Clone, Copy)]
enum JobKind {
    Last,
}

#[derive(Debug, PartialEq)]
struct Job {
    args: Vec<String>,
    kind: JobKind,
}

impl Job {
    fn new(args: Vec<String>, kind: JobKind) -> Job {
        Job { args, kind }
    }
}

#[derive(Debug, PartialEq)]
struct Pipeline {
    jobs: Vec<Job>,
    stdout: Option<String>,
    stdin: Option<String>,
}

impl Pipeline {
    fn new(jobs: Vec<Job>, stdout: Option<String>, stdin: Option<String>) -> Pipeline {
        Pipeline { jobs, stdout, stdin }
    }
}

/// Stages that are as plain as can be: a command line is one job of words,
/// and a parameter is a name with a type behind a colon if it has one.
struct Plain;

fn kind_of(name: &str) -> Option<Primitive> {
    match name {
        "str" => Some(Primitive::Str),
        "bool" => Some(Primitive::Boolean),
        "int" => Some(Primitive::Integer),
        "float" => Some(Primitive::Float),
        "int[]" => Some(Primitive::IntegerArray),
        _ => None,
    }
}

impl Stages for Plain {
    type Pipeline = Pipeline;

    fn pipeline(&self, text: &str) -> Result<Pipeline, String> {
        if text.ends_with('|') {
            return Err("expected command, but found a pipe".to_owned());
        }
        Ok(Pipeline::new(
            vec![Job::new(text.split_whitespace().map(String::from).collect(), JobKind::Last)],
            None,
            None,
        ))
    }

    fn arguments(&self, text: &str) -> Vec<String> {
        text.split_whitespace().map(String::from).collect()
    }

    fn parameters(&self, text: &str) -> Result<Vec<TypeArg>, String> {
        let mut args = Vec::new();
        for word in text.split_whitespace() {
            match word.find(':') {
                None => args.push(TypeArg { name: word.to_owned(), kind: Primitive::Any }),
                Some(at) => match kind_of(&word[at + 1..]) {
                    Some(kind) => args.push(TypeArg { name: word[..at].to_owned(), kind }),
                    None => return Err(format!("invalid type: {}", &word[at + 1..])),
                },
            }
        }
        Ok(args)
    }
}

fn parsed(code: &str) -> Statement<Pipeline> {
    parse(code, &Plain).statement
}

fn words(text: &[&str]) -> Vec<String> {
    text.iter().map(|word| word.to_string()).collect()
}

fn job(text: &[&str]) -> Pipeline {
    Pipeline::new(vec![Job::new(words(text), JobKind::Last)], None, None)
}

#[test]
fn statement_pattern_splitting() {
    let (args, description) = split_pattern("a:int b:bool -- a comment", "--");
    assert_eq!(args, "a:int b:bool");
    assert_eq!(description, Some("a comment"));

    let (args, description) = split_pattern("a --", "--");
    assert_eq!(args, "a");
    assert_eq!(description, None);

    let (args, description) = split_pattern("a", "--");
    assert_eq!(args, "a");
    assert_eq!(description, None);
}

#[test]
fn parsing_ifs() {
    // Default case where spaced normally
    let parsed_if = parsed("if test 1 -eq 2");
    let correct_parse = Statement::If {
        expression: Pipeline::new(
            vec![Job::new(
                vec!["test".to_owned(), "1".to_owned(), "-eq".to_owned(), "2".to_owned()]
                    .into_iter()
                    .collect(),
                JobKind::Last,
            )],
            None,
            None,
        ),
        success: vec![],
        else_if: vec![],
        failure: vec![],
    };
    assert_eq!(correct_parse, parsed_if);

    // Trailing spaces after final value
    let parsed_if = parsed("if test 1 -eq 2         ");
    assert_eq!(correct_parse, parsed_if);
}

#[test]
fn parsing_elses() {
    // Default case where spaced normally
    let mut parsed_if = parsed("else");
    let correct_parse = Statement::Else;
    assert_eq!(correct_parse, parsed_if);

    // Trailing spaces after final value
    parsed_if = parsed("else         ");
    assert_eq!(correct_parse, parsed_if);

    // Leading spaces after final value
    parsed_if = parsed("         else");
    assert_eq!(correct_parse, parsed_if);
}

#[test]
fn parsing_ends() {
    // Default case where spaced normally
    let parsed_if = parsed("end");
    let correct_parse = Statement::End;
    assert_eq!(correct_parse, parsed_if);

    // Trailing spaces after final value
    let parsed_if = parsed("end         ");
    let correct_parse = Statement::End;
    assert_eq!(correct_parse, parsed_if);

    // Leading spaces after final value
    let parsed_if = parsed("         end");
    let correct_parse = Statement::End;
    assert_eq!(correct_parse, parsed_if);
}

#[test]
fn parsing_functions() {
    // Default case where spaced normally
    let parsed_if = parsed("fn bob");
    let correct_parse = Statement::Function {
        description: None,
        name: "bob".into(),
        args: Default::default(),
        statements: Default::default(),
    };
    assert_eq!(correct_parse, parsed_if);

    // Trailing spaces after final value
    let parsed_if = parsed("fn bob        ");
    assert_eq!(correct_parse, parsed_if);

    // Leading spaces after final value
    let parsed_if = parsed("         fn bob");
    assert_eq!(correct_parse, parsed_if);

    // Default case where spaced normally
    let parsed_if = parsed("fn bob a b");
    let correct_parse = Statement::Function {
        description: None,
        name: "bob".into(),
        args: vec![
            TypeArg { name: "a".into(), kind: Primitive::Any },
            TypeArg { name: "b".into(), kind: Primitive::Any },
        ],
        statements: Default::default(),
    };
    assert_eq!(correct_parse, parsed_if);

    // Trailing spaces after final value
    let parsed_if = parsed("fn bob a b       ");
    assert_eq!(correct_parse, parsed_if);

    let parsed_if = parsed("fn bob a b --bob is a nice function");
    let correct_parse = Statement::Function {
        description: Some("bob is a nice function".to_string()),
        name: "bob".into(),
        args: vec![
            TypeArg { name: "a".into(), kind: Primitive::Any },
            TypeArg { name: "b".into(), kind: Primitive::Any },
        ],
        statements: vec![],
    };
    assert_eq!(correct_parse, parsed_if);
    let parsed_if = parsed("fn bob a b --          bob is a nice function");
    assert_eq!(correct_parse, parsed_if);
    let parsed_if = parsed("fn bob a b      --bob is a nice function");
    assert_eq!(correct_parse, parsed_if);
}

#[test]
fn case_takes_its_value_as_written() {
    assert_eq!(
        parsed("case \"value\""),
        Statement::Case(Case { value: Some("\"value\"".to_owned()), statements: vec![] })
    );
    assert_eq!(
        parsed("case value"),
        Statement::Case(Case { value: Some("value".to_owned()), statements: vec![] })
    );
    assert_eq!(parsed("case _"), Statement::Case(Case { value: None, statements: vec![] }));
    assert_eq!(parsed("case   _  "), Statement::Case(Case { value: None, statements: vec![] }));
    assert_eq!(
        parsed("case _ x"),
        Statement::Case(Case { value: Some("_ x".to_owned()), statements: vec![] })
    );
}

#[test]
fn for_takes_a_variable_and_values() {
    assert_eq!(
        parsed("for x in 1 2 3"),
        Statement::For {
            variable: "x".to_owned(),
            values: words(&["1", "2", "3"]),
            statements: vec![],
        }
    );
    assert_eq!(
        parsed("  for   item\tin   a  "),
        Statement::For { variable: "item".to_owned(), values: words(&["a"]), statements: vec![] }
    );
}

#[test]
fn for_without_its_parts_is_inert() {
    let broken = ["for x", "for x on 1 2", "for x in", "for x inside"];
    for code in broken.iter() {
        let r = parse(code, &Plain);
        assert_eq!(r.statement, Statement::Default, "{}", code);
        assert_eq!(r.diagnostic, Some(Diagnostic::ForLoop), "{}", code);
    }
}

#[test]
fn fn_takes_a_name_parameters_and_a_description() {
    assert_eq!(
        parse("fn greet name -- says hello", &Plain),
        Parsed {
            statement: Statement::Function {
                name: "greet".to_owned(),
                description: Some("says hello".to_owned()),
                args: vec![TypeArg { name: "name".to_owned(), kind: Primitive::Any }],
                statements: vec![],
            },
            diagnostic: None,
        }
    );
    assert_eq!(
        parsed("fn add a:int b:int"),
        Statement::Function {
            name: "add".to_owned(),
            description: None,
            args: vec![
                TypeArg { name: "a".to_owned(), kind: Primitive::Integer },
                TypeArg { name: "b".to_owned(), kind: Primitive::Integer },
            ],
            statements: vec![],
        }
    );
}

#[test]
fn fn_with_a_bad_name_or_bad_parameters_is_inert() {
    let r = parse("fn gre-et name", &Plain);
    assert_eq!(r.statement, Statement::Default);
    assert_eq!(r.diagnostic, Some(Diagnostic::FunctionName("gre-et".to_owned())));

    let r = parse("fn grüß name", &Plain);
    assert_eq!(r.statement, Statement::Default);
    assert_eq!(r.diagnostic, Some(Diagnostic::FunctionName("grüß".to_owned())));

    let r = parse("fn greet name:nothing", &Plain);
    assert_eq!(r.statement, Statement::Default);
    assert_eq!(
        r.diagnostic,
        Some(Diagnostic::FunctionArguments("invalid type: nothing".to_owned()))
    );
}

#[test]
fn bare_keywords() {
    assert_eq!(parse("break", &Plain), Parsed { statement: Statement::Break, diagnostic: None });
    assert_eq!(
        parse(" continue ", &Plain),
        Parsed { statement: Statement::Continue, diagnostic: None }
    );
    for code in ["for", "match", " case "].iter() {
        assert_eq!(
            parse(code, &Plain),
            Parsed { statement: Statement::Default, diagnostic: Some(Diagnostic::Incomplete) }
        );
    }
}

#[test]
fn let_export_and_match_keep_their_text() {
    assert_eq!(parsed("let a  =  1 "), Statement::Let { expression: "a  =  1".to_owned() });
    assert_eq!(parsed("export   PATH"), Statement::Export("PATH".to_owned()));
    assert_eq!(
        parsed("match  $x"),
        Statement::Match { expression: "$x".to_owned(), cases: vec![] }
    );
    assert_eq!(parsed("letter a"), Statement::Pipeline(job(&["letter", "a"])));
}

#[test]
fn conditions_are_compiled() {
    assert_eq!(
        parsed("while test 1"),
        Statement::While { expression: job(&["test", "1"]), statements: vec![] }
    );
    assert_eq!(
        parsed("else if test 2"),
        Statement::ElseIf(ElseIf { expression: job(&["test", "2"]), success: vec![] })
    );
    assert_eq!(
        parsed("else   if   test 2"),
        Statement::ElseIf(ElseIf { expression: job(&["test", "2"]), success: vec![] })
    );
    assert_eq!(parsed("echo one two"), Statement::Pipeline(job(&["echo", "one", "two"])));
    assert_eq!(parsed("elsewhere a"), Statement::Pipeline(job(&["elsewhere", "a"])));
    assert_eq!(parsed("else echo"), Statement::Pipeline(job(&["else", "echo"])));
    assert_eq!(parsed("if"), Statement::Pipeline(job(&["if"])));
}

#[test]
fn a_command_line_that_does_not_compile_is_inert() {
    for code in ["if test |", "while a |", "else if b |", "echo |"].iter() {
        let r = parse(code, &Plain);
        assert_eq!(r.statement, Statement::Default, "{}", code);
        assert_eq!(
            r.diagnostic,
            Some(Diagnostic::Syntax("expected command, but found a pipe".to_owned())),
            "{}",
            code
        );
    }
}

#[test]
fn nothing_and_comments_are_no_statement() {
    for code in ["", "   ", "# a comment", "  #fn bob"].iter() {
        assert_eq!(
            parse(code, &Plain),
            Parsed { statement: Statement::Default, diagnostic: None },
            "{:?}",
            code
        );
    }
}

#[test]
fn forms_hold_the_parts_of_the_text() {
    assert_eq!(classify("if  test 1 "), Form::If("test 1"));
    assert_eq!(classify("for x in 1 2 3"), Form::For { variable: "x", values: "1 2 3" });
    assert_eq!(
        classify("fn greet name -- says hello"),
        Form::Function { name: "greet", args: "name", description: Some("says hello") }
    );
    assert_eq!(
        classify("fn greet  name "),
        Form::Function { name: "greet", args: "  name", description: None }
    );
    assert_eq!(classify("fn 1+1"), Form::InvalidName("1+1"));
    assert_eq!(classify("case _"), Form::Case(None));
    assert_eq!(classify("else if a"), Form::ElseIf("a"));
    assert_eq!(classify(" ls -l "), Form::Pipeline("ls -l"));
    assert_eq!(classify("#ls"), Form::Blank);
    assert_eq!(classify("for"), Form::Incomplete);
    assert_eq!(classify("for x"), Form::MalformedFor);
}

#[test]
fn the_builders_answer_each_outcome() {
    let r: Parsed<u8> = collect(Keyword::If, Ok(7));
    assert_eq!(
        r,
        Parsed {
            statement: Statement::If {
                expression: 7,
                success: vec![],
                else_if: vec![],
                failure: vec![],
            },
            diagnostic: None,
        }
    );
    let r: Parsed<u8> = collect(Keyword::ElseIf, Ok(7));
    assert_eq!(r.statement, Statement::ElseIf(ElseIf { expression: 7, success: vec![] }));
    let r: Parsed<u8> = collect(Keyword::While, Ok(7));
    assert_eq!(r.statement, Statement::While { expression: 7, statements: vec![] });
    let r: Parsed<u8> = collect(Keyword::Pipeline, Ok(7));
    assert_eq!(r.statement, Statement::Pipeline(7));
    let r: Parsed<u8> = collect(Keyword::While, Err("no".to_owned()));
    assert_eq!(
        r,
        Parsed { statement: Statement::Default, diagnostic: Some(Diagnostic::Syntax("no".to_owned())) }
    );
    let r: Parsed<u8> = for_loop("x", words(&["1", "2"]));
    assert_eq!(
        r.statement,
        Statement::For { variable: "x".to_owned(), values: words(&["1", "2"]), statements: vec![] }
    );
    let r: Parsed<u8> = function("f", Some("does"), Ok(vec![]));
    assert_eq!(
        r.statement,
        Statement::Function {
            name: "f".to_owned(),
            description: Some("does".to_owned()),
            args: vec![],
            statements: vec![],
        }
    );
    let r: Parsed<u8> = function("f", None, Err("bad".to_owned()));
    assert_eq!(r.diagnostic, Some(Diagnostic::FunctionArguments("bad".to_owned())));
    assert_eq!(r.statement, Statement::Default);
}

#[test]
fn names_of_functions() {
    assert!(is_valid_name("bob"));
    assert!(is_valid_name("Bob_2"));
    assert!(is_valid_name("_"));
    assert!(!is_valid_name(""));
    assert!(!is_valid_name("bob-2"));
    assert!(!is_valid_name("bob 2"));
    assert!(!is_valid_name("böb"));
}

#[test]
fn split_pattern_takes_the_first_occurrence() {
    assert_eq!(split_pattern("a -- b -- c", "--"), ("a", Some("b -- c")));
    assert_eq!(split_pattern("  a  ", "--"), ("  a  ", None));
    assert_eq!(split_pattern("--", "--"), ("", None));
    assert_eq!(split_pattern(" -- x", "--"), ("", Some("x")));
    assert_eq!(split_pattern(" a ", ""), ("", Some("a")));
}

#[test]
fn connectives_wrap_the_statement() {
    let r = parse_and_validate(Ok(StatementVariant::And("echo a")), &Plain);
    assert_eq!(r.statement, Statement::And(Box::new(Statement::Pipeline(job(&["echo", "a"])))));
    assert_eq!(r.diagnostic, None);
    let r = parse_and_validate(Ok(StatementVariant::Or("end")), &Plain);
    assert_eq!(r.statement, Statement::Or(Box::new(Statement::End)));
    let r = parse_and_validate(Ok(StatementVariant::Default("end")), &Plain);
    assert_eq!(r.statement, Statement::End);
    let r = parse_and_validate(Ok(StatementVariant::And("for")), &Plain);
    assert_eq!(r.statement, Statement::And(Box::new(Statement::Default)));
    assert_eq!(r.diagnostic, Some(Diagnostic::Incomplete));
}

#[test]
fn an_error_of_the_lexer_becomes_a_failure() {
    let r = parse_and_validate(Err(StatementError::UnterminatedSubshell), &Plain);
    assert_eq!(r.statement, Statement::Error(-1));
    assert_eq!(r.diagnostic, Some(Diagnostic::Lexical(StatementError::UnterminatedSubshell)));
}

#[test]
fn a_script_goes_on_behind_an_error() {
    let script = "echo (a); let x = 1 && if test $x; else if b; echo $(c";
    let statements: Vec<Statement<Pipeline>> = StatementSplitter::new(script)
        .collect()
        .into_iter()
        .map(|item| parse_and_validate(item, &Plain).statement)
        .collect();
    assert_eq!(
        statements,
        vec![
            Statement::Error(-1),
            Statement::Let { expression: "x = 1".to_owned() },
            Statement::And(Box::new(Statement::If {
                expression: job(&["test", "$x"]),
                success: vec![],
                else_if: vec![],
                failure: vec![],
            })),
            Statement::Else,
            Statement::If {
                expression: job(&["b"]),
                success: vec![],
                else_if: vec![],
                failure: vec![],
            },
            Statement::Error(-1),
        ]
    );
}

#[test]
fn diagnostics_are_reported_in_one_line() {
    assert_eq!(
        Diagnostic::Incomplete.message(),
        "ion: syntax error: incomplete control flow statement"
    );
    assert_eq!(Diagnostic::Syntax("no".to_owned()).message(), "ion: syntax error: no");
    assert_eq!(Diagnostic::ForLoop.message(), "ion: syntax error: incorrect for loop syntax");
    assert_eq!(
        Diagnostic::FunctionName("a-b".to_owned()).message(),
        "ion: syntax error: 'a-b' is not a valid function name\n     Function names may only contain alphanumeric characters"
    );
    assert_eq!(
        Diagnostic::FunctionArguments("bad".to_owned()).message(),
        "ion: function argument error: bad"
    );
    assert_eq!(
        Diagnostic::Lexical(StatementError::InvalidCharacter(')', 43)).message(),
        "ion: syntax error: ')' at position 43 is out of place"
    );
}

#[test]
fn forms_that_need_no_stage_are_settled() {
    let r: Option<Parsed<u8>> = ion_parser::parse::settle(classify("let a = 1"));
    assert_eq!(
        r,
        Some(Parsed { statement: Statement::Let { expression: "a = 1".to_owned() }, diagnostic: None })
    );
    let r: Option<Parsed<u8>> = ion_parser::parse::settle(classify("for"));
    assert_eq!(
        r,
        Some(Parsed { statement: Statement::Default, diagnostic: Some(Diagnostic::Incomplete) })
    );
    for code in ["if a", "else if a", "while a", "for x in a", "fn f", "ls"].iter() {
        let r: Option<Parsed<u8>> = ion_parser::parse::settle(classify(code));
        assert_eq!(r, None, "{}", code);
    }
}
