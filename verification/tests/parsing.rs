use klein::check;
use klein::parse;
use klein::ParseError;
use klein::Punctuation;
use klein::StaticError;
use klein::TokenType;
use klein::TokenizeError;

#[test]
fn empty_source_parses_to_zero_statements() {
    let program = parse("").unwrap();
    assert_eq!(program.statements.len(), 0);
}

#[test]
fn statement_count_matches_top_level_terminators() {
    let program = parse("print(1); print(2);").unwrap();
    assert_eq!(program.statements.len(), 2);
    let program = parse("for i in 1.to(2) { print(i); } print(3);").unwrap();
    assert_eq!(program.statements.len(), 2);
}

#[test]
fn syntax_error_names_expected_and_actual_kinds() {
    let err = parse("if { }").unwrap_err();
    assert_eq!(
        err,
        ParseError::UnexpectedToken {
            expected: TokenType::Identifier,
            actual: TokenType::Punctuation(Punctuation::LeftBrace),
        }
    );
}

#[test]
fn missing_semicolon_is_a_syntax_error() {
    let err = parse("print(1)").unwrap_err();
    assert_eq!(
        err,
        ParseError::UnexpectedEndOfInput { expected: TokenType::Punctuation(Punctuation::Semicolon) }
    );
}

#[test]
fn truncated_expression_reports_end_of_input() {
    let err = parse("1+").unwrap_err();
    assert_eq!(err, ParseError::UnexpectedEndOfInput { expected: TokenType::Identifier });
}

#[test]
fn unclosed_block_reports_end_of_input() {
    let err = parse("for i in 1.to(2) { print(i);").unwrap_err();
    assert_eq!(
        err,
        ParseError::UnexpectedEndOfInput { expected: TokenType::Punctuation(Punctuation::RightBrace) }
    );
}

#[test]
fn tokenize_error_surfaces_through_parse_unchanged() {
    let err = parse("print(@);").unwrap_err();
    assert_eq!(
        err,
        ParseError::Tokenize(TokenizeError::UnrecognizedToken("@".to_string()))
    );
}

#[test]
fn numeric_literal_beyond_the_runtime_range_is_rejected() {
    let err = parse("print(99999999999999999999);").unwrap_err();
    assert_eq!(err, ParseError::NumberOutOfRange("99999999999999999999".to_string()));
    // The largest representable literal is accepted.
    assert!(parse("print(9223372036854775807);").is_ok());
}

#[test]
fn parsing_twice_gives_equal_results() {
    let source = "for i in 1.to(3) { if i.mod(2) == 0 { print(i); } else { print(\"odd\"); } }";
    let first = parse(source);
    let second = parse(source);
    assert_eq!(first, second);
    assert!(first.is_ok());
}

#[test]
fn else_if_chains_and_bare_blocks_parse() {
    assert!(parse("if 1 == 1 { } else if 1 == 2 { } else { }").is_ok());
    assert!(parse("{ print(1); { print(2); } }").is_ok());
    assert!(parse("print((1 + 2) * 3);").is_ok());
}

#[test]
fn check_reports_the_parse_error_and_nothing_on_valid_source() {
    assert!(check("print(1);").is_none());
    assert!(check("").is_none());
    let err = check("if { }").unwrap();
    assert_eq!(
        err,
        StaticError::Parse(ParseError::UnexpectedToken {
            expected: TokenType::Identifier,
            actual: TokenType::Punctuation(Punctuation::LeftBrace),
        })
    );
    let err = check("@@@").unwrap();
    assert_eq!(
        err,
        StaticError::Parse(ParseError::Tokenize(TokenizeError::UnrecognizedToken(
            "@@@".to_string()
        )))
    );
}
