use ion_parser::splitter::{is_invalid, StatementError, StatementSplitter, StatementVariant};

fn split(text: &str) -> Vec<Result<StatementVariant<'_>, StatementError>> {
    StatementSplitter::new(text).collect()
}

#[test]
fn semicolons_split_statements_in_order() {
    assert_eq!(
        split("a; b; c"),
        vec![
            Ok(StatementVariant::Default("a")),
            Ok(StatementVariant::Default("b")),
            Ok(StatementVariant::Default("c")),
        ]
    );
}

#[test]
fn a_connective_goes_with_the_statement_behind_it() {
    assert_eq!(
        split("a && b || c"),
        vec![
            Ok(StatementVariant::Default("a")),
            Ok(StatementVariant::And("b")),
            Ok(StatementVariant::Or("c")),
        ]
    );
}

#[test]
fn a_connective_ends_at_the_next_semicolon() {
    assert_eq!(
        split("a && b; c"),
        vec![
            Ok(StatementVariant::Default("a")),
            Ok(StatementVariant::And("b")),
            Ok(StatementVariant::Default("c")),
        ]
    );
    assert_eq!(
        split("a ||b&& c"),
        vec![
            Ok(StatementVariant::Default("a")),
            Ok(StatementVariant::Or("b")),
            Ok(StatementVariant::And("c")),
        ]
    );
    assert_eq!(
        split("a &&; b"),
        vec![
            Ok(StatementVariant::Default("a")),
            Ok(StatementVariant::And("")),
            Ok(StatementVariant::Default("b")),
        ]
    );
}

#[test]
fn unterminated_subshell_and_arithmetic() {
    assert_eq!(split("echo $(echo 1"), vec![Err(StatementError::UnterminatedSubshell)]);
    assert_eq!(split("$((1+1)"), vec![Err(StatementError::UnterminatedArithmetic)]);
}

#[test]
fn text_without_terminators_is_one_statement() {
    assert_eq!(split("  echo one two  "), vec![Ok(StatementVariant::Default("echo one two"))]);
    assert_eq!(split("echo a & b | c"), vec![Ok(StatementVariant::Default("echo a & b | c"))]);
    assert_eq!(split("echo a\\;b"), vec![Ok(StatementVariant::Default("echo a\\;b"))]);
    assert_eq!(split("echo a\\&& b"), vec![Ok(StatementVariant::Default("echo a\\&& b"))]);
    assert_eq!(split("echo é ü"), vec![Ok(StatementVariant::Default("echo é ü"))]);
}

#[test]
fn the_empty_text_yields_nothing() {
    assert_eq!(split(""), vec![]);
    let mut splitter = StatementSplitter::new("");
    assert_eq!(splitter.next(), None);
    assert_eq!(splitter.next(), None);
}

#[test]
fn white_space_alone_is_an_empty_statement() {
    assert_eq!(split("   "), vec![Ok(StatementVariant::Default(""))]);
    assert_eq!(
        split("a; "),
        vec![Ok(StatementVariant::Default("a")), Ok(StatementVariant::Default(""))]
    );
    assert_eq!(split("a;"), vec![Ok(StatementVariant::Default("a"))]);
}

#[test]
fn next_hands_out_one_statement_at_a_time() {
    let mut splitter = StatementSplitter::new("a && b; c");
    assert_eq!(splitter.next(), Some(Ok(StatementVariant::Default("a"))));
    assert_eq!(splitter.next(), Some(Ok(StatementVariant::And("b"))));
    assert_eq!(splitter.next(), Some(Ok(StatementVariant::Default("c"))));
    assert_eq!(splitter.next(), None);
    assert_eq!(splitter.next(), None);
}

#[test]
fn an_escape_takes_the_meaning_from_a_byte() {
    assert_eq!(split("echo \\("), vec![Ok(StatementVariant::Default("echo \\("))]);
    assert_eq!(split("echo \\)"), vec![Ok(StatementVariant::Default("echo \\)"))]);
    assert_eq!(split("echo \\}"), vec![Ok(StatementVariant::Default("echo \\}"))]);
    assert_eq!(split("echo \\{"), vec![Ok(StatementVariant::Default("echo \\{"))]);
    assert_eq!(split("echo \\\"; echo"), vec![
        Ok(StatementVariant::Default("echo \\\"")),
        Ok(StatementVariant::Default("echo")),
    ]);
    assert_eq!(split("echo \\'; echo"), vec![
        Ok(StatementVariant::Default("echo \\'")),
        Ok(StatementVariant::Default("echo")),
    ]);
    assert_eq!(split("echo \\\\; echo"), vec![
        Ok(StatementVariant::Default("echo \\\\")),
        Ok(StatementVariant::Default("echo")),
    ]);
    assert_eq!(split("echo '\\'; echo'"), vec![Ok(StatementVariant::Default("echo '\\'; echo'"))]);
}

#[test]
fn what_is_left_open_is_reported_in_order() {
    assert_eq!(split("echo $(a $b(c {d"), vec![Err(StatementError::UnterminatedSubshell)]);
    assert_eq!(split("echo {e $b(c ${d"), vec![Err(StatementError::UnterminatedMethod)]);
    assert_eq!(split("echo {a ${b"), vec![Err(StatementError::UnterminatedBracedVar)]);
    assert_eq!(split("echo {a $((1"), vec![Err(StatementError::UnterminatedBrace)]);
    assert_eq!(split("echo $((1 + (2)"), vec![Err(StatementError::UnterminatedArithmetic)]);
    assert_eq!(split("echo $b(c"), vec![Err(StatementError::UnterminatedMethod)]);
    assert_eq!(split("echo @{b"), vec![Err(StatementError::UnterminatedBracedVar)]);
    assert_eq!(split("echo {a,b"), vec![Err(StatementError::UnterminatedBrace)]);
}

#[test]
fn the_first_error_of_a_statement_is_kept() {
    assert_eq!(
        split("echo ) ( }; echo }"),
        vec![
            Err(StatementError::InvalidCharacter(')', 6)),
            Err(StatementError::InvalidCharacter('}', 18)),
        ]
    );
    assert_eq!(split("echo ( $(a"), vec![Err(StatementError::InvalidCharacter('(', 6))]);
}

#[test]
fn braces_are_counted() {
    assert_eq!(split("echo {a,b}{c,d}"), vec![Ok(StatementVariant::Default("echo {a,b}{c,d}"))]);
    assert_eq!(split("echo {a,{b,c}}"), vec![Ok(StatementVariant::Default("echo {a,{b,c}}"))]);
    assert_eq!(split("echo }"), vec![Err(StatementError::InvalidCharacter('}', 6))]);
    assert_eq!(split("echo \"}\""), vec![Ok(StatementVariant::Default("echo \"}\""))]);
}

#[test]
fn a_braced_variable_holds_names_only() {
    assert_eq!(split("echo ${a b}"), vec![Err(StatementError::InvalidCharacter(' ', 9))]);
    assert_eq!(split("echo ${a;b}"), vec![Err(StatementError::InvalidCharacter(';', 9))]);
    assert_eq!(split("echo ${a::b,c_1}"), vec![Ok(StatementVariant::Default("echo ${a::b,c_1}"))]);
    assert_eq!(split("echo ${a$b}"), vec![Err(StatementError::InvalidCharacter('$', 9))]);
    assert_eq!(split("echo ${a(}"), vec![Err(StatementError::InvalidCharacter('(', 9))]);
    assert_eq!(split("echo ${a\\;b}"), vec![Ok(StatementVariant::Default("echo ${a\\;b}"))]);
}

#[test]
fn quotes_come_before_the_braced_variable() {
    assert_eq!(split("echo ${a\"b\"}"), vec![Ok(StatementVariant::Default("echo ${a\"b\"}"))]);
    assert_eq!(split("echo ${a'b c'}"), vec![Ok(StatementVariant::Default("echo ${a'b c'}"))]);
}

#[test]
fn bytes_outside_the_name_class_are_refused_in_a_braced_variable() {
    assert_eq!(split("echo ${é}"), vec![Err(StatementError::InvalidCharacter('\u{c3}', 8))]);
}

#[test]
fn arithmetic_is_closed_by_two_brackets() {
    assert_eq!(split("echo $((1 + 2)); echo"), vec![
        Ok(StatementVariant::Default("echo $((1 + 2))")),
        Ok(StatementVariant::Default("echo")),
    ]);
    assert_eq!(split("echo $((1 + (2 * 3)))"), vec![
        Ok(StatementVariant::Default("echo $((1 + (2 * 3)))")),
    ]);
    assert_eq!(split("echo $((1) + 2)"), vec![Err(StatementError::InvalidCharacter(' ', 10))]);
    assert_eq!(split("echo $((1)"), vec![Err(StatementError::UnterminatedArithmetic)]);
}

#[test]
fn a_single_ampersand_or_pipe_ends_nothing() {
    assert_eq!(split("a & b"), vec![Ok(StatementVariant::Default("a & b"))]);
    assert_eq!(split("a | b"), vec![Ok(StatementVariant::Default("a | b"))]);
    assert_eq!(split("a |& b"), vec![Ok(StatementVariant::Default("a |& b"))]);
}

#[test]
fn terminators_in_quotes_and_brackets_end_nothing() {
    assert_eq!(split("echo 'a && b'"), vec![Ok(StatementVariant::Default("echo 'a && b'"))]);
    assert_eq!(split("echo \"a || b\""), vec![Ok(StatementVariant::Default("echo \"a || b\""))]);
    assert_eq!(split("echo $(a && b)"), vec![Ok(StatementVariant::Default("echo $(a && b)"))]);
    assert_eq!(split("echo @(a || b; c)"), vec![Ok(StatementVariant::Default("echo @(a || b; c)"))]);
}

#[test]
fn the_last_statement_must_begin_like_a_command() {
    assert_eq!(split("<file"), vec![Err(StatementError::ExpectedCommandButFound("redirection"))]);
    assert_eq!(split("  ^file"), vec![Err(StatementError::ExpectedCommandButFound("redirection"))]);
    assert_eq!(split("| cat"), vec![Err(StatementError::ExpectedCommandButFound("pipe"))]);
    assert_eq!(split("& cat"), vec![Err(StatementError::ExpectedCommandButFound("&"))]);
    assert_eq!(split("*a"), vec![Err(StatementError::IllegalCommandName("*a".to_string()))]);
    assert_eq!(split(" %1 "), vec![Err(StatementError::IllegalCommandName("%1".to_string()))]);
    assert_eq!(split("?"), vec![Err(StatementError::IllegalCommandName("?".to_string()))]);
    assert_eq!(split("{a,b}"), vec![Err(StatementError::IllegalCommandName("{a,b}".to_string()))]);
    assert_eq!(split("a; >b"), vec![
        Ok(StatementVariant::Default("a")),
        Err(StatementError::ExpectedCommandButFound("redirection")),
    ]);
    assert_eq!(split(">b; a"), vec![
        Ok(StatementVariant::Default(">b")),
        Ok(StatementVariant::Default("a")),
    ]);
}

#[test]
fn else_with_a_space_behind_it_stands_alone() {
    assert_eq!(split("else if test 1"), vec![
        Ok(StatementVariant::Default("else")),
        Ok(StatementVariant::Default("if test 1")),
    ]);
    assert_eq!(split("  else echo a; b"), vec![
        Ok(StatementVariant::Default("else")),
        Ok(StatementVariant::Default("echo a")),
        Ok(StatementVariant::Default("b")),
    ]);
    assert_eq!(split("else"), vec![Ok(StatementVariant::Default("else"))]);
    assert_eq!(split("else "), vec![Ok(StatementVariant::Default("else"))]);
    assert_eq!(split("elsewhere a"), vec![Ok(StatementVariant::Default("elsewhere a"))]);
    assert_eq!(split("a && else b"), vec![
        Ok(StatementVariant::Default("a")),
        Ok(StatementVariant::Default("else")),
        Ok(StatementVariant::Default("b")),
    ]);
}

#[test]
fn a_method_call_needs_a_variable() {
    assert_eq!(split("echo $len(a)"), vec![Ok(StatementVariant::Default("echo $len(a)"))]);
    assert_eq!(split("echo len(a)"), vec![Err(StatementError::InvalidCharacter('(', 9))]);
    assert_eq!(split("echo \"len(a)\""), vec![Ok(StatementVariant::Default("echo \"len(a)\""))]);
    assert_eq!(split("echo $len(a; b)"), vec![
        Ok(StatementVariant::Default("echo $len(a")),
        Ok(StatementVariant::Default("b)")),
    ]);
}

#[test]
fn positions_are_counted_in_bytes() {
    assert_eq!(split("é ("), vec![Err(StatementError::InvalidCharacter('(', 4))]);
}

#[test]
fn is_invalid_tells_the_bytes_of_a_name() {
    for byte in 0u8..=255 {
        let name = byte.is_ascii_alphanumeric() || byte == b'_';
        assert_eq!(is_invalid(byte), !name, "byte {}", byte);
    }
}

#[test]
fn errors_are_reported_in_one_line() {
    assert_eq!(
        StatementError::InvalidCharacter('(', 26).message(),
        "syntax error: '(' at position 26 is out of place"
    );
    assert_eq!(
        StatementError::InvalidCharacter('é', 0).message(),
        "syntax error: 'é' at position 0 is out of place"
    );
    assert_eq!(
        StatementError::InvalidCharacter(')', 18446744073709551615).message(),
        "syntax error: ')' at position 18446744073709551615 is out of place"
    );
    assert_eq!(
        StatementError::IllegalCommandName("*a".to_string()).message(),
        "illegal command name: *a"
    );
    assert_eq!(StatementError::UnterminatedSubshell.message(), "syntax error: unterminated subshell");
    assert_eq!(
        StatementError::UnterminatedBracedVar.message(),
        "syntax error: unterminated braced var"
    );
    assert_eq!(StatementError::UnterminatedBrace.message(), "syntax error: unterminated brace");
    assert_eq!(StatementError::UnterminatedMethod.message(), "syntax error: unterminated method");
    assert_eq!(
        StatementError::UnterminatedArithmetic.message(),
        "syntax error: unterminated arithmetic subexpression"
    );
    assert_eq!(
        StatementError::ExpectedCommandButFound("pipe").message(),
        "expected command, but found pipe"
    );
}
