use minicss::{tokenize, Decimal, LexError, Lexer, Token, TokenKind};

fn first(input: &str) -> Result<Token, LexError> {
    Lexer::new(input).next_token()
}

fn all_tokens(input: &str) -> (Vec<Token>, LexError) {
    let mut lexer = Lexer::new(input);
    let mut tokens = Vec::new();
    loop {
        match lexer.next_token() {
            Ok(t) => tokens.push(t),
            Err(e) => return (tokens, e),
        }
    }
}

fn decimal_value(d: &Decimal) -> f64 {
    let text = format!("{}{}.{}", if d.negative { "-" } else { "" }, d.integer, d.fraction);
    text.parse::<f64>().unwrap()
}

#[test]
fn structural_characters_are_single_tokens() {
    let cases = [
        ("{", TokenKind::CurlyBracketOpen),
        ("}", TokenKind::CurlyBracketClose),
        (":", TokenKind::Colon),
        (";", TokenKind::Semicolon),
        (",", TokenKind::Comma),
        ("(", TokenKind::ParenthesisOpen),
        (")", TokenKind::ParenthesisClose),
    ];
    for (input, kind) in cases {
        assert_eq!(first(input).unwrap(), Token::new(kind, (0, 1)));
    }
}

#[test]
fn identifier_with_digits_and_dashes() {
    let t = first("border-1x").unwrap();
    assert_eq!(t.kind, TokenKind::Identifier("border-1x".to_string()));
    assert_eq!(t.range, (0, 9));
}

#[test]
fn underscore_starts_but_does_not_continue_an_identifier() {
    let (tokens, end) = all_tokens("border_x");
    assert_eq!(end, LexError::EndOfFile);
    assert_eq!(tokens.len(), 2);
    assert_eq!(tokens[0].kind, TokenKind::Identifier("border".to_string()));
    assert_eq!(tokens[1].kind, TokenKind::Identifier("_x".to_string()));
    assert_eq!(tokens[1].range, (6, 8));
}

#[test]
fn negative_decimal_number() {
    let t = first("-12.5").unwrap();
    assert_eq!(t.range, (0, 5));
    match t.kind {
        TokenKind::Number(d) => {
            assert!(d.negative);
            assert_eq!(d.integer, "12");
            assert_eq!(d.fraction, "5");
            assert_eq!(decimal_value(&d), -12.5);
        }
        other => panic!("expected a number, got {:?}", other),
    }
}

#[test]
fn integer_number() {
    let t = first("42;").unwrap();
    assert_eq!(t.range, (0, 2));
    let expected = Decimal { negative: false, integer: "42".to_string(), fraction: String::new() };
    assert_eq!(t.kind, TokenKind::Number(expected.clone()));
    assert_eq!(decimal_value(&expected), 42.0);
}

#[test]
fn number_starting_with_point_after_minus() {
    let t = first("-.5").unwrap();
    let expected = Decimal { negative: true, integer: String::new(), fraction: "5".to_string() };
    assert_eq!(t.kind, TokenKind::Number(expected));
    assert_eq!(t.range, (0, 3));
}

#[test]
fn lone_minus_is_an_invalid_number() {
    assert_eq!(
        first("-"),
        Err(LexError::GenericError { message: "Invalid number".to_string() })
    );
}

#[test]
fn two_points_make_an_invalid_number() {
    assert_eq!(
        first("1.2.3"),
        Err(LexError::generic_error("Invalid number".to_string()))
    );
}

#[test]
fn non_ascii_digit_makes_an_invalid_number() {
    assert_eq!(
        first("\u{663}"),
        Err(LexError::GenericError { message: "Invalid number".to_string() })
    );
}

#[test]
fn closed_string_literal() {
    let t = first("'abc'").unwrap();
    assert_eq!(t.kind, TokenKind::StringLiteral("abc".to_string()));
    assert_eq!(t.range, (0, 5));
    let t = first("\"a 'b'\"").unwrap();
    assert_eq!(t.kind, TokenKind::StringLiteral("a 'b'".to_string()));
    assert_eq!(t.range, (0, 7));
}

#[test]
fn unclosed_string_reports_end_of_input() {
    assert_eq!(first("'abc"), Err(LexError::UnclosedString { line: 1, column: 5 }));
    assert_eq!(first("\"a\nbc"), Err(LexError::UnclosedString { line: 2, column: 3 }));
}

#[test]
fn hash_and_at_keyword() {
    let t = first("#fff").unwrap();
    assert_eq!(t.kind, TokenKind::Hash("fff".to_string()));
    assert_eq!(t.range, (0, 4));
    let t = first("@media").unwrap();
    assert_eq!(t.kind, TokenKind::AtKeyword("media".to_string()));
    assert_eq!(t.range, (0, 6));
}

#[test]
fn empty_hash_and_at_keyword() {
    assert_eq!(first("@").unwrap(), Token::new(TokenKind::AtKeyword(String::new()), (0, 1)));
    assert_eq!(first("#").unwrap(), Token::new(TokenKind::Hash(String::new()), (0, 1)));
    let (tokens, end) = all_tokens("#{");
    assert_eq!(end, LexError::EndOfFile);
    assert_eq!(tokens[0], Token::new(TokenKind::Hash(String::new()), (0, 1)));
    assert_eq!(tokens[1], Token::new(TokenKind::CurlyBracketOpen, (1, 2)));
}

#[test]
fn skipped_prefix_sets_the_start_offset() {
    let t = first("  /* c */  {").unwrap();
    assert_eq!(t, Token::new(TokenKind::CurlyBracketOpen, (11, 12)));
}

#[test]
fn comment_closed_right_before_a_token() {
    let t = first("/*x*/{").unwrap();
    assert_eq!(t, Token::new(TokenKind::CurlyBracketOpen, (5, 6)));
}

#[test]
fn whitespace_of_several_kinds_is_skipped() {
    let t = first("\t\n x").unwrap();
    assert_eq!(t, Token::new(TokenKind::Identifier("x".to_string()), (3, 4)));
}

#[test]
fn token_ranges_rebuild_the_input_without_trivia() {
    let input = "main {\n  color: red; /* note */\n  margin: -1.5;\n}";
    let (tokens, end) = all_tokens(input);
    assert_eq!(end, LexError::EndOfFile);
    let joined: String = tokens.iter().map(|t| &input[t.range.0..t.range.1]).collect();
    assert_eq!(joined, "main{color:red;margin:-1.5;}");
    for pair in tokens.windows(2) {
        assert!(pair[0].range.1 <= pair[1].range.0);
    }
}

#[test]
fn empty_input_ends_at_once() {
    assert_eq!(first(""), Err(LexError::EndOfFile));
}

#[test]
fn end_of_file_repeats() {
    let mut lexer = Lexer::new("a");
    assert!(lexer.next_token().is_ok());
    assert_eq!(lexer.next_token(), Err(LexError::EndOfFile));
    assert_eq!(lexer.next_token(), Err(LexError::EndOfFile));
}

#[test]
fn unexpected_character_reports_position_after_it() {
    assert_eq!(first("!"), Err(LexError::unexpected_character('!', 1, 2)));
    let (_, end) = all_tokens("a\n  !");
    assert_eq!(end, LexError::UnexpectedCharacter { character: '!', line: 2, column: 4 });
}

#[test]
fn unclosed_comment_reports_its_start() {
    assert_eq!(first("/* abc"), Err(LexError::UnclosedComment { line: 1, column: 1 }));
    let (tokens, end) = all_tokens("a\n /* x");
    assert_eq!(tokens.len(), 1);
    assert_eq!(end, LexError::UnclosedComment { line: 2, column: 2 });
}

#[test]
fn multibyte_characters_use_byte_offsets() {
    let input = "é{";
    let (tokens, end) = all_tokens(input);
    assert_eq!(end, LexError::EndOfFile);
    assert_eq!(tokens[0], Token::new(TokenKind::Identifier("é".to_string()), (0, 2)));
    assert_eq!(tokens[1], Token::new(TokenKind::CurlyBracketOpen, (2, 3)));
    assert_eq!(&input[tokens[0].range.0..tokens[0].range.1], "é");
}

#[test]
fn error_constructors() {
    assert_eq!(
        LexError::unexpected_character('$', 3, 7),
        LexError::UnexpectedCharacter { character: '$', line: 3, column: 7 }
    );
    assert_eq!(
        LexError::generic_error("oops".to_string()),
        LexError::GenericError { message: "oops".to_string() }
    );
}

#[test]
fn tokenize_collects_every_token_and_the_final_error() {
    let (tokens, end) = tokenize("a{b:1}");
    assert_eq!(end, LexError::EndOfFile);
    let kinds: Vec<TokenKind> = tokens.iter().map(|t| t.kind.clone()).collect();
    let one = Decimal { negative: false, integer: "1".to_string(), fraction: String::new() };
    assert_eq!(
        kinds,
        vec![
            TokenKind::Identifier("a".to_string()),
            TokenKind::CurlyBracketOpen,
            TokenKind::Identifier("b".to_string()),
            TokenKind::Colon,
            TokenKind::Number(one),
            TokenKind::CurlyBracketClose,
        ]
    );
    let (tokens, end) = tokenize("a ~");
    assert_eq!(tokens.len(), 1);
    assert_eq!(end, LexError::UnexpectedCharacter { character: '~', line: 1, column: 4 });
}
