use lox::{LexError, LexErrorKind, Literal, Scanner, Token, TokenType};

fn scan(source: &str) -> Result<Vec<Token>, Vec<LexError>> {
    Scanner::from_source(source).scan_tokens()
}

fn tokens(source: &str) -> Vec<Token> {
    scan(source).expect("no lexical error expected")
}

fn kinds(source: &str) -> Vec<TokenType> {
    tokens(source).iter().map(|t| t.token_type).collect()
}

fn literal_text(t: &Token) -> Option<String> {
    t.literal().as_ref().map(|l| l.text().to_string())
}

#[test]
fn peek_shows_current_element() {
    let source = "1 + 2 + 3";
    let mut scanner = Scanner::from_source(source);
    if let Some(Ok(Token { token_type: t, .. })) = scanner.next_token() {
        assert_eq!(t, TokenType::Number);
    } else {
        unreachable!("This should fail");
    }
    if let Some(Ok(Token { token_type: t, .. })) = scanner.next_token() {
        assert_eq!(t, TokenType::Plus);
    } else {
        unreachable!("The 2nd element was not Plus")
    }
}

#[test]
fn single_character_lexemes() {
    let cases = [
        ("(", TokenType::LeftParen),
        (")", TokenType::RightParen),
        ("{", TokenType::LeftBrace),
        ("}", TokenType::RightBrace),
        (",", TokenType::Comma),
        (".", TokenType::Dot),
        ("-", TokenType::Minus),
        ("+", TokenType::Plus),
        (";", TokenType::Semicolon),
        ("*", TokenType::Star),
    ];
    for (source, kind) in cases {
        let ts = tokens(source);
        assert_eq!(ts.len(), 2);
        assert_eq!(ts[0].token_type, kind);
        assert_eq!(ts[0].lexeme(), source);
        assert_eq!(ts[0].line(), 1);
        assert!(ts[0].literal().is_none());
        assert_eq!(ts[1].token_type, TokenType::EndOfInput);
        assert_eq!(ts[1].lexeme(), "");
        assert_eq!(ts[1].line(), 1);
    }
}

#[test]
fn two_character_operators() {
    let cases = [
        ("!=", TokenType::BangEqual),
        ("==", TokenType::EqualEqual),
        ("<=", TokenType::LessEqual),
        (">=", TokenType::GreaterEqual),
        ("!", TokenType::Bang),
        ("=", TokenType::Equal),
        ("<", TokenType::Less),
        (">", TokenType::Greater),
    ];
    for (source, kind) in cases {
        let ts = tokens(source);
        assert_eq!(ts.len(), 2);
        assert_eq!(ts[0].token_type, kind);
        assert_eq!(ts[0].lexeme(), source);
        assert_eq!(ts[1].token_type, TokenType::EndOfInput);
    }
}

#[test]
fn operator_not_followed_by_equal_leaves_next_character() {
    assert_eq!(
        kinds("!!=<>"),
        vec![
            TokenType::Bang,
            TokenType::BangEqual,
            TokenType::Less,
            TokenType::Greater,
            TokenType::EndOfInput
        ]
    );
    assert_eq!(kinds("= ="), vec![TokenType::Equal, TokenType::Equal, TokenType::EndOfInput]);
}

#[test]
fn spaced_single_characters_round_trip() {
    let source = "( ) { } , . - + ; *";
    let ts = tokens(source);
    let chars: Vec<char> = source.chars().filter(|c| *c != ' ').collect();
    assert_eq!(ts.len(), chars.len() + 1);
    for (t, c) in ts.iter().zip(chars.iter()) {
        assert_eq!(t.lexeme(), c.to_string());
    }
    let joined: String = ts.iter().map(|t| t.lexeme()).collect();
    assert_eq!(joined, "(){},.-+;*");
}

#[test]
fn scanning_twice_gives_equal_results() {
    let source = "var x = 1.5; // note\nprint \"a\" + x;";
    assert_eq!(scan(source), scan(source));
    let source = "@ \"open";
    assert_eq!(scan(source), scan(source));
}

#[test]
fn lines_are_tracked() {
    let ts = tokens("1\n+\n2");
    let lines: Vec<u32> = ts.iter().map(|t| t.line()).collect();
    assert_eq!(
        kinds("1\n+\n2"),
        vec![TokenType::Number, TokenType::Plus, TokenType::Number, TokenType::EndOfInput]
    );
    assert_eq!(lines, vec![1, 2, 3, 3]);
}

#[test]
fn keyword_and_identifier() {
    let ts = tokens("print");
    assert_eq!(ts.len(), 2);
    assert_eq!(ts[0].token_type, TokenType::Print);
    assert!(ts[0].literal().is_none());
    let ts = tokens("printer");
    assert_eq!(ts.len(), 2);
    assert_eq!(ts[0].token_type, TokenType::Identifier);
    assert_eq!(ts[0].literal(), &Some(Literal::LoxIdentifier("printer".to_string())));
    assert_eq!(ts[0].lexeme(), "printer");
}

#[test]
fn every_keyword_is_recognised() {
    let cases = [
        ("and", TokenType::And),
        ("class", TokenType::Class),
        ("else", TokenType::Else),
        ("false", TokenType::False),
        ("for", TokenType::For),
        ("fun", TokenType::Fun),
        ("if", TokenType::If),
        ("nil", TokenType::Nil),
        ("or", TokenType::Or),
        ("print", TokenType::Print),
        ("return", TokenType::Return),
        ("super", TokenType::Super),
        ("this", TokenType::This),
        ("true", TokenType::True),
        ("var", TokenType::Var),
        ("while", TokenType::While),
    ];
    for (word, kind) in cases {
        let ts = tokens(word);
        assert_eq!(ts[0].token_type, kind);
        assert_eq!(ts[0].lexeme(), word);
        assert!(ts[0].literal().is_none());
    }
}

#[test]
fn keywords_are_case_sensitive_and_exact() {
    for word in ["Print", "IF", "an", "classy", "whilex", "_and", "for1"] {
        let ts = tokens(word);
        assert_eq!(ts.len(), 2);
        assert_eq!(ts[0].token_type, TokenType::Identifier);
        assert_eq!(literal_text(&ts[0]), Some(word.to_string()));
    }
}

#[test]
fn identifiers_take_letters_digits_and_underscores() {
    let ts = tokens("_a1 b_2c-d");
    assert_eq!(ts[0].lexeme(), "_a1");
    assert_eq!(ts[1].lexeme(), "b_2c");
    assert_eq!(ts[2].token_type, TokenType::Minus);
    assert_eq!(ts[3].lexeme(), "d");
    assert_eq!(ts[4].token_type, TokenType::EndOfInput);
}

#[test]
fn numeric_literals() {
    let ts = tokens("123.45");
    assert_eq!(ts.len(), 2);
    assert_eq!(ts[0].token_type, TokenType::Number);
    let text = literal_text(&ts[0]).unwrap();
    assert_eq!(text, "123.45");
    assert_eq!(text.parse::<f64>().unwrap(), 123.45);

    let ts = tokens("123.");
    assert_eq!(ts.len(), 3);
    assert_eq!(ts[0].token_type, TokenType::Number);
    assert_eq!(ts[0].lexeme(), "123");
    assert_eq!(literal_text(&ts[0]).unwrap().parse::<f64>().unwrap(), 123.0);
    assert_eq!(ts[1].token_type, TokenType::Dot);
    assert_eq!(ts[2].token_type, TokenType::EndOfInput);
}

#[test]
fn numbers_take_at_most_one_fraction() {
    let ts = tokens("12.3.4");
    assert_eq!(ts[0].lexeme(), "12.3");
    assert_eq!(ts[1].token_type, TokenType::Dot);
    assert_eq!(ts[2].lexeme(), "4");
    assert_eq!(ts[0].literal(), &Some(Literal::LoxNumber("12.3".to_string())));
}

#[test]
fn leading_minus_is_its_own_token() {
    let ts = tokens("-7");
    assert_eq!(ts[0].token_type, TokenType::Minus);
    assert_eq!(ts[1].token_type, TokenType::Number);
    assert_eq!(ts[1].lexeme(), "7");
}

#[test]
fn method_call_dot_after_number() {
    assert_eq!(
        kinds("1.abs"),
        vec![TokenType::Number, TokenType::Dot, TokenType::Identifier, TokenType::EndOfInput]
    );
}

#[test]
fn string_literals() {
    let ts = tokens("\"hi\"");
    assert_eq!(ts.len(), 2);
    assert_eq!(ts[0].token_type, TokenType::String);
    assert_eq!(ts[0].literal(), &Some(Literal::LoxString("hi".to_string())));
    assert_eq!(ts[0].lexeme(), "\"hi\"");

    let errors = scan("\"hi").unwrap_err();
    assert_eq!(errors, vec![LexError { kind: LexErrorKind::UnterminatedString, line: 1 }]);
}

#[test]
fn strings_keep_text_verbatim_and_count_lines() {
    let ts = tokens("\"a\\n\nb\" +");
    assert_eq!(literal_text(&ts[0]), Some("a\\n\nb".to_string()));
    assert_eq!(ts[0].line(), 1);
    assert_eq!(ts[1].token_type, TokenType::Plus);
    assert_eq!(ts[1].line(), 2);
    let ts = tokens("\"\"");
    assert_eq!(literal_text(&ts[0]), Some(String::new()));
}

#[test]
fn unterminated_string_reports_its_first_line() {
    let errors = scan("\n\"abc\ndef").unwrap_err();
    assert_eq!(errors, vec![LexError { kind: LexErrorKind::UnterminatedString, line: 2 }]);
}

#[test]
fn comments_produce_no_tokens() {
    let ts = tokens("// ignore\n+");
    assert_eq!(ts.len(), 2);
    assert_eq!(ts[0].token_type, TokenType::Plus);
    assert_eq!(ts[0].line(), 2);

    let ts = tokens("/* a\nb */+");
    assert_eq!(ts.len(), 2);
    assert_eq!(ts[0].token_type, TokenType::Plus);
    assert_eq!(ts[0].line(), 2);
}

#[test]
fn slash_alone_is_a_token() {
    assert_eq!(
        kinds("4 / 2"),
        vec![TokenType::Number, TokenType::Slash, TokenType::Number, TokenType::EndOfInput]
    );
    assert_eq!(kinds("/* x */ /"), vec![TokenType::Slash, TokenType::EndOfInput]);
    assert_eq!(kinds("// only a comment"), vec![TokenType::EndOfInput]);
}

#[test]
fn unterminated_block_comment_is_an_error() {
    let errors = scan("+\n/* never\nclosed *").unwrap_err();
    assert_eq!(errors, vec![LexError { kind: LexErrorKind::UnterminatedComment, line: 2 }]);
    let errors = scan("/*/").unwrap_err();
    assert_eq!(errors, vec![LexError { kind: LexErrorKind::UnterminatedComment, line: 1 }]);
}

#[test]
fn empty_source() {
    let ts = tokens("");
    assert_eq!(ts.len(), 1);
    assert_eq!(ts[0].token_type, TokenType::EndOfInput);
    assert_eq!(ts[0].line(), 1);
    assert_eq!(ts[0].lexeme(), "");
}

#[test]
fn whitespace_only_source() {
    let ts = tokens(" \t\r\n\n");
    assert_eq!(ts.len(), 1);
    assert_eq!(ts[0].line(), 3);
}

#[test]
fn unexpected_characters_are_all_reported() {
    let errors = scan("@ + #\n$").unwrap_err();
    assert_eq!(
        errors,
        vec![
            LexError { kind: LexErrorKind::UnexpectedCharacter('@'), line: 1 },
            LexError { kind: LexErrorKind::UnexpectedCharacter('#'), line: 1 },
            LexError { kind: LexErrorKind::UnexpectedCharacter('$'), line: 2 },
        ]
    );
}

#[test]
fn pulling_interleaves_tokens_and_errors_then_stops() {
    let mut scanner = Scanner::from_source("a @ 1");
    let first = scanner.next_token().unwrap().unwrap();
    assert_eq!(first.token_type, TokenType::Identifier);
    assert_eq!(
        scanner.next_token(),
        Some(Err(LexError { kind: LexErrorKind::UnexpectedCharacter('@'), line: 1 }))
    );
    assert_eq!(scanner.next_token().unwrap().unwrap().token_type, TokenType::Number);
    assert_eq!(scanner.next_token().unwrap().unwrap().token_type, TokenType::EndOfInput);
    assert_eq!(scanner.next_token(), None);
    assert_eq!(scanner.next_token(), None);
    assert_eq!(scanner.scan_tokens(), Ok(vec![]));
}

#[test]
fn error_messages() {
    let e = LexError { kind: LexErrorKind::UnterminatedString, line: 1 };
    assert_eq!(e.message(), "unterminated string");
    let e = LexError { kind: LexErrorKind::UnterminatedComment, line: 1 };
    assert_eq!(e.message(), "unterminated comment");
    let e = LexError { kind: LexErrorKind::UnexpectedCharacter('@'), line: 4 };
    assert_eq!(e.message(), "unexpected character '@'");
}

#[test]
fn token_new_and_accessors() {
    let t = Token::new(
        TokenType::Identifier,
        "name",
        Some(Literal::LoxIdentifier("name".to_string())),
        7,
    );
    assert_eq!(t.token_type, TokenType::Identifier);
    assert_eq!(t.lexeme(), "name");
    assert_eq!(t.line(), 7);
    assert_eq!(t.literal().as_ref().unwrap().text(), "name");
    let u = Token::new(TokenType::Semicolon, ";", None, 2);
    assert!(u.literal().is_none());
    assert_ne!(t, u);
}

#[test]
fn non_ascii_text_in_strings_and_errors() {
    let ts = tokens("\"héllo ✓\"");
    assert_eq!(literal_text(&ts[0]), Some("héllo ✓".to_string()));
    let errors = scan("é").unwrap_err();
    assert_eq!(errors, vec![LexError { kind: LexErrorKind::UnexpectedCharacter('é'), line: 1 }]);
}

#[test]
fn a_small_program() {
    let source = "var answer = 42;\nif (answer >= 10) {\n  print \"big\";\n}\n";
    assert_eq!(
        kinds(source),
        vec![
            TokenType::Var,
            TokenType::Identifier,
            TokenType::Equal,
            TokenType::Number,
            TokenType::Semicolon,
            TokenType::If,
            TokenType::LeftParen,
            TokenType::Identifier,
            TokenType::GreaterEqual,
            TokenType::Number,
            TokenType::RightParen,
            TokenType::LeftBrace,
            TokenType::Print,
            TokenType::String,
            TokenType::Semicolon,
            TokenType::RightBrace,
            TokenType::EndOfInput,
        ]
    );
    let ts = tokens(source);
    assert_eq!(ts[5].line(), 2);
    assert_eq!(ts[13].line(), 3);
    assert_eq!(ts[16].line(), 5);
}

#[test]
fn ordinary_sources_have_line_numbers_that_fit() {
    assert!(Scanner::lines_fit(""));
    assert!(Scanner::lines_fit("a\nb\nc"));
    assert!(Scanner::lines_fit(&"\n".repeat(1000)));
}
