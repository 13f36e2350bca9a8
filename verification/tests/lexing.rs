use klein::tokenize;
use klein::TokenType;
use klein::TokenizeError;
use klein::Keyword;
use klein::Operator;
use klein::Punctuation;

#[test]
fn empty_source_tokenizes_to_empty_sequence() {
    let tokens = tokenize("").unwrap();
    assert_eq!(tokens.len(), 0);
}

#[test]
fn whitespace_only_source_tokenizes_to_empty_sequence() {
    let tokens = tokenize("  \t\n\r ").unwrap();
    assert_eq!(tokens.len(), 0);
}

#[test]
fn unrecognized_token_reports_the_offending_run() {
    let err = tokenize("@@@").unwrap_err();
    assert_eq!(err, TokenizeError::UnrecognizedToken("@@@".to_string()));
}

#[test]
fn lone_equals_sign_is_unrecognized() {
    let err = tokenize("=").unwrap_err();
    assert_eq!(err, TokenizeError::UnrecognizedToken("=".to_string()));
}

#[test]
fn unterminated_string_literal_is_unrecognized() {
    let err = tokenize("\"abc").unwrap_err();
    assert_eq!(err, TokenizeError::UnrecognizedToken("\"abc".to_string()));
}

#[test]
fn keywords_are_reserved_identifiers() {
    let tokens = tokenize("for in if else and or forx").unwrap();
    let kinds: Vec<TokenType> = tokens.iter().map(|t| t.token_type).collect();
    assert_eq!(
        kinds,
        vec![
            TokenType::Keyword(Keyword::For),
            TokenType::Keyword(Keyword::In),
            TokenType::Keyword(Keyword::If),
            TokenType::Keyword(Keyword::Else),
            TokenType::Keyword(Keyword::And),
            TokenType::Keyword(Keyword::Or),
            TokenType::Identifier,
        ]
    );
    assert_eq!(tokens[6].value, "forx");
}

#[test]
fn operators_and_punctuation_are_classified() {
    let tokens = tokenize("== + - * / . { } ( ) , ;").unwrap();
    let kinds: Vec<TokenType> = tokens.iter().map(|t| t.token_type).collect();
    assert_eq!(
        kinds,
        vec![
            TokenType::Operator(Operator::Equals),
            TokenType::Operator(Operator::Plus),
            TokenType::Operator(Operator::Minus),
            TokenType::Operator(Operator::Star),
            TokenType::Operator(Operator::Slash),
            TokenType::Operator(Operator::Dot),
            TokenType::Punctuation(Punctuation::LeftBrace),
            TokenType::Punctuation(Punctuation::RightBrace),
            TokenType::Punctuation(Punctuation::LeftParen),
            TokenType::Punctuation(Punctuation::RightParen),
            TokenType::Punctuation(Punctuation::Comma),
            TokenType::Punctuation(Punctuation::Semicolon),
        ]
    );
}

#[test]
fn string_literal_keeps_its_quotes_and_position() {
    let tokens = tokenize("  \"ab c\"").unwrap();
    assert_eq!(tokens.len(), 1);
    assert_eq!(tokens[0].token_type, TokenType::StringLiteral);
    assert_eq!(tokens[0].value, "\"ab c\"");
    assert_eq!(tokens[0].position, 2);
}

#[test]
fn number_followed_by_dot_splits_into_number_dot_identifier() {
    let tokens = tokenize("1.to(15)").unwrap();
    let values: Vec<&str> = tokens.iter().map(|t| t.value.as_str()).collect();
    assert_eq!(values, vec!["1", ".", "to", "(", "15", ")"]);
    assert_eq!(tokens[0].token_type, TokenType::NumberLiteral);
    assert_eq!(tokens[1].token_type, TokenType::Operator(Operator::Dot));
    assert_eq!(tokens[2].token_type, TokenType::Identifier);
}

#[test]
fn tokens_reconstruct_the_source_without_overlap_or_skipped_text() {
    let source = "for x in 1.to(3) { print(\"a b\"); }";
    let chars: Vec<char> = source.chars().collect();
    let tokens = tokenize(source).unwrap();
    let mut covered = vec![false; chars.len()];
    let mut last_end = 0usize;
    for token in &tokens {
        // Tokens come in source order and never overlap.
        assert!(token.position >= last_end);
        let text: Vec<char> = token.value.chars().collect();
        assert!(!text.is_empty());
        // Each token's text stands verbatim at its position.
        assert_eq!(&chars[token.position..token.position + text.len()], &text[..]);
        for flag in covered.iter_mut().take(token.position + text.len()).skip(token.position) {
            *flag = true;
        }
        last_end = token.position + text.len();
    }
    // Every character outside all tokens is whitespace.
    for (idx, flag) in covered.iter().enumerate() {
        if !*flag {
            assert!(chars[idx].is_whitespace());
        }
    }
}

#[test]
fn tokenizing_twice_gives_equal_results() {
    let source = "for x in 1.to(3) { print(x); }";
    let first = tokenize(source);
    let second = tokenize(source);
    assert_eq!(first, second);
}
