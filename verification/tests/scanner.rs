use rustlox::scanner::Scanner;
use rustlox::token::{Token, TokenType};

#[test]
fn lexemes_are_scanned_successfully() {
    let test_cases: Vec<(&str, Vec<Token>)> = vec![
        ("(", vec![Token::new(TokenType::LeftParen, "(", 1)]),
        (")", vec![Token::new(TokenType::RightParen, ")", 1)]),
        ("{", vec![Token::new(TokenType::LeftBrace, "{", 1)]),
        ("}", vec![Token::new(TokenType::RightBrace, "}", 1)]),
        (";", vec![Token::new(TokenType::Semicolon, ";", 1)]),
        (",", vec![Token::new(TokenType::Comma, ",", 1)]),
        (".", vec![Token::new(TokenType::Dot, ".", 1)]),
        ("+", vec![Token::new(TokenType::Plus, "+", 1)]),
        ("-", vec![Token::new(TokenType::Minus, "-", 1)]),
        ("*", vec![Token::new(TokenType::Star, "*", 1)]),
        ("/", vec![Token::new(TokenType::Slash, "/", 1)]),
        ("!", vec![Token::new(TokenType::Bang, "!", 1)]),
        ("!=", vec![Token::new(TokenType::BangEqual, "!=", 1)]),
        ("=", vec![Token::new(TokenType::Equal, "=", 1)]),
        ("==", vec![Token::new(TokenType::EqualEqual, "==", 1)]),
        (">", vec![Token::new(TokenType::Greater, ">", 1)]),
        (">=", vec![Token::new(TokenType::GreaterEqual, ">=", 1)]),
        ("<", vec![Token::new(TokenType::Less, "<", 1)]),
        ("<=", vec![Token::new(TokenType::LessEqual, "<=", 1)]),
        ("nil", vec![Token::new(TokenType::Nil, "nil", 1)]),
        ("true", vec![Token::new(TokenType::True, "true", 1)]),
        ("false", vec![Token::new(TokenType::False, "false", 1)]),
        ("and", vec![Token::new(TokenType::And, "and", 1)]),
        ("or", vec![Token::new(TokenType::Or, "or", 1)]),
        ("if", vec![Token::new(TokenType::If, "if", 1)]),
        ("else", vec![Token::new(TokenType::Else, "else", 1)]),
        ("for", vec![Token::new(TokenType::For, "for", 1)]),
        ("while", vec![Token::new(TokenType::While, "while", 1)]),
        ("var", vec![Token::new(TokenType::Var, "var", 1)]),
        ("fun", vec![Token::new(TokenType::Fun, "fun", 1)]),
        ("return", vec![Token::new(TokenType::Return, "return", 1)]),
        ("class", vec![Token::new(TokenType::Class, "class", 1)]),
        ("this", vec![Token::new(TokenType::This, "this", 1)]),
        ("super", vec![Token::new(TokenType::Super, "super", 1)]),
        ("print", vec![Token::new(TokenType::Print, "print", 1)]),
        ("\"sushi\"", vec![Token::new(TokenType::String, "sushi", 1)]),
        ("123.456", vec![Token::new(TokenType::Number, "123.456", 1)]),
        ("my_variable", vec![Token::new(TokenType::Identifier, "my_variable", 1)]),
    ];

    for (input, expected_output) in test_cases {
        let output = Scanner::new().scan(input).unwrap();
        assert_eq!(output, expected_output);
    }
}

fn scan(source: &str) -> Vec<Token> {
    Scanner::new().scan(source).unwrap()
}

fn fault(source: &str) -> (i32, String) {
    let error = Scanner::new().scan(source).unwrap_err();
    (error.line_number, error.message)
}

#[test]
fn empty_source_has_no_tokens() {
    assert_eq!(scan(""), vec![]);
    assert_eq!(scan(" \t\r"), vec![]);
}

#[test]
fn bang_equal_is_one_token() {
    assert_eq!(scan("!="), vec![Token::new(TokenType::BangEqual, "!=", 1)]);
}

#[test]
fn greater_before_another_character_stands_alone() {
    assert_eq!(
        scan(">1"),
        vec![
            Token::new(TokenType::Greater, ">", 1),
            Token::new(TokenType::Number, "1", 1),
        ]
    );
    assert_eq!(
        scan("> ="),
        vec![
            Token::new(TokenType::Greater, ">", 1),
            Token::new(TokenType::Equal, "=", 1),
        ]
    );
}

#[test]
fn the_longest_operator_is_taken_first() {
    assert_eq!(
        scan("==="),
        vec![
            Token::new(TokenType::EqualEqual, "==", 1),
            Token::new(TokenType::Equal, "=", 1),
        ]
    );
    assert_eq!(
        scan("<=>=!"),
        vec![
            Token::new(TokenType::LessEqual, "<=", 1),
            Token::new(TokenType::GreaterEqual, ">=", 1),
            Token::new(TokenType::Bang, "!", 1),
        ]
    );
}

#[test]
fn lines_are_counted_from_one() {
    assert_eq!(
        scan("1\n2"),
        vec![
            Token::new(TokenType::Number, "1", 1),
            Token::new(TokenType::Number, "2", 2),
        ]
    );
    assert_eq!(
        scan("\n\n  x\n"),
        vec![Token::new(TokenType::Identifier, "x", 3)]
    );
}

#[test]
fn unterminated_string_names_the_opening_line() {
    assert_eq!(fault("\"abc"), (1, "unterminated string".to_string()));
    assert_eq!(fault("1\n2 \"abc"), (2, "unterminated string".to_string()));
    assert_eq!(fault("\""), (1, "unterminated string".to_string()));
}

#[test]
fn newline_inside_a_string_is_a_fault() {
    assert_eq!(fault("\"abc\ndef\""), (1, "unterminated string".to_string()));
}

#[test]
fn string_lexeme_leaves_out_the_quotes() {
    assert_eq!(
        scan("\"a b\" \"\""),
        vec![
            Token::new(TokenType::String, "a b", 1),
            Token::new(TokenType::String, "", 1),
        ]
    );
    assert_eq!(
        scan("\"// no comment\""),
        vec![Token::new(TokenType::String, "// no comment", 1)]
    );
}

#[test]
fn unexpected_character_is_a_fault() {
    assert_eq!(fault("@"), (1, "unexpected character: @".to_string()));
    assert_eq!(fault("1 +\n\n #"), (3, "unexpected character: #".to_string()));
    assert_eq!(fault("a ? b"), (1, "unexpected character: ?".to_string()));
}

#[test]
fn nothing_is_handed_back_after_a_fault() {
    let mut scanner = Scanner::new();
    assert!(scanner.scan("1 2 @").is_err());
    assert_eq!(scanner.tokens, vec![]);
}

#[test]
fn comments_run_to_the_end_of_the_line() {
    assert_eq!(scan("// nothing here"), vec![]);
    assert_eq!(scan("//"), vec![]);
    assert_eq!(
        scan("1 // one\n2"),
        vec![
            Token::new(TokenType::Number, "1", 1),
            Token::new(TokenType::Number, "2", 2),
        ]
    );
    assert_eq!(
        scan("// a\n// b\n;"),
        vec![Token::new(TokenType::Semicolon, ";", 3)]
    );
}

#[test]
fn slash_alone_is_a_token() {
    assert_eq!(
        scan("1/2"),
        vec![
            Token::new(TokenType::Number, "1", 1),
            Token::new(TokenType::Slash, "/", 1),
            Token::new(TokenType::Number, "2", 1),
        ]
    );
    assert_eq!(
        scan("/ /"),
        vec![
            Token::new(TokenType::Slash, "/", 1),
            Token::new(TokenType::Slash, "/", 1),
        ]
    );
}

#[test]
fn integer_is_one_number_token() {
    assert_eq!(scan("123"), vec![Token::new(TokenType::Number, "123", 1)]);
    assert_eq!(scan("0"), vec![Token::new(TokenType::Number, "0", 1)]);
}

#[test]
fn a_dot_needs_a_digit_behind_it_to_belong_to_a_number() {
    assert_eq!(
        scan("3."),
        vec![
            Token::new(TokenType::Number, "3", 1),
            Token::new(TokenType::Dot, ".", 1),
        ]
    );
    assert_eq!(
        scan(".5"),
        vec![
            Token::new(TokenType::Dot, ".", 1),
            Token::new(TokenType::Number, "5", 1),
        ]
    );
    assert_eq!(
        scan("1.5.25"),
        vec![
            Token::new(TokenType::Number, "1.5", 1),
            Token::new(TokenType::Dot, ".", 1),
            Token::new(TokenType::Number, "25", 1),
        ]
    );
    assert_eq!(
        scan("3.x"),
        vec![
            Token::new(TokenType::Number, "3", 1),
            Token::new(TokenType::Dot, ".", 1),
            Token::new(TokenType::Identifier, "x", 1),
        ]
    );
}

#[test]
fn the_character_behind_an_identifier_is_kept() {
    assert_eq!(
        scan("a+b"),
        vec![
            Token::new(TokenType::Identifier, "a", 1),
            Token::new(TokenType::Plus, "+", 1),
            Token::new(TokenType::Identifier, "b", 1),
        ]
    );
    assert_eq!(
        scan("(nil)"),
        vec![
            Token::new(TokenType::LeftParen, "(", 1),
            Token::new(TokenType::Nil, "nil", 1),
            Token::new(TokenType::RightParen, ")", 1),
        ]
    );
}

#[test]
fn identifiers_take_letters_digits_and_underscores() {
    assert_eq!(scan("_"), vec![Token::new(TokenType::Identifier, "_", 1)]);
    assert_eq!(scan("x1_y2"), vec![Token::new(TokenType::Identifier, "x1_y2", 1)]);
    assert_eq!(scan("nils"), vec![Token::new(TokenType::Identifier, "nils", 1)]);
    assert_eq!(scan("Nil"), vec![Token::new(TokenType::Identifier, "Nil", 1)]);
    assert_eq!(
        scan("1x"),
        vec![
            Token::new(TokenType::Number, "1", 1),
            Token::new(TokenType::Identifier, "x", 1),
        ]
    );
}

#[test]
fn letters_beyond_ascii_make_identifiers() {
    assert_eq!(
        scan("\u{e9}t\u{e9} = 1"),
        vec![
            Token::new(TokenType::Identifier, "\u{e9}t\u{e9}", 1),
            Token::new(TokenType::Equal, "=", 1),
            Token::new(TokenType::Number, "1", 1),
        ]
    );
    // An Arabic-Indic digit is numeric, not alphabetic: it may continue an
    // identifier and may not begin one.
    assert_eq!(
        scan("a\u{661}"),
        vec![Token::new(TokenType::Identifier, "a\u{661}", 1)]
    );
    assert_eq!(
        fault("\u{661}"),
        (1, "unexpected character: \u{661}".to_string())
    );
    assert_eq!(
        fault("\u{20ac}"),
        (1, "unexpected character: \u{20ac}".to_string())
    );
}

#[test]
fn a_scanner_starts_afresh_with_every_scan() {
    let mut scanner = Scanner::new();
    let first = scanner.scan("1\n2").unwrap();
    let second = scanner.scan("1\n2").unwrap();
    assert_eq!(first, second);
    assert_eq!(scanner.tokens, second);
    let third = scanner.scan("x").unwrap();
    assert_eq!(third, vec![Token::new(TokenType::Identifier, "x", 1)]);
    assert_eq!(scanner.tokens, third);
}

#[test]
fn add_token_appends_on_the_current_line() {
    let mut scanner = Scanner::new();
    scanner.add_token(TokenType::Plus, "+");
    scanner.add_token(TokenType::Identifier, "x");
    assert_eq!(
        scanner.tokens,
        vec![
            Token::new(TokenType::Plus, "+", 1),
            Token::new(TokenType::Identifier, "x", 1),
        ]
    );
}

#[test]
fn reserved_words_are_classified() {
    let words = [
        ("nil", TokenType::Nil),
        ("true", TokenType::True),
        ("false", TokenType::False),
        ("and", TokenType::And),
        ("or", TokenType::Or),
        ("if", TokenType::If),
        ("else", TokenType::Else),
        ("for", TokenType::For),
        ("while", TokenType::While),
        ("var", TokenType::Var),
        ("fun", TokenType::Fun),
        ("return", TokenType::Return),
        ("class", TokenType::Class),
        ("this", TokenType::This),
        ("super", TokenType::Super),
        ("print", TokenType::Print),
    ];
    for (word, kind) in words {
        assert_eq!(TokenType::from_str(word), kind);
    }
    assert_eq!(TokenType::from_str("printer"), TokenType::Identifier);
    assert_eq!(TokenType::from_str("prin"), TokenType::Identifier);
    assert_eq!(TokenType::from_str("NIL"), TokenType::Identifier);
    assert_eq!(TokenType::from_str(""), TokenType::Identifier);
}

#[test]
fn a_token_keeps_what_it_is_made_of() {
    let token = Token::new(TokenType::String, "sushi", 7);
    assert_eq!(token.token_type, TokenType::String);
    assert_eq!(token.lexeme, "sushi");
    assert_eq!(token.line_number, 7);
    assert_eq!(token.clone(), token);
}

#[test]
fn a_scan_error_keeps_what_it_is_made_of() {
    let error = rustlox::scanner::Error::new(3, "unterminated string");
    assert_eq!(error.line_number, 3);
    assert_eq!(error.message, "unterminated string");
}

#[test]
fn the_lines_of_ordinary_sources_can_be_counted() {
    assert!(rustlox::scanner::lines_fit(""));
    assert!(rustlox::scanner::lines_fit("1\n2\n\n3"));
    assert!(rustlox::scanner::lines_fit(&"\n".repeat(100_000)));
}

#[test]
fn many_lines_are_counted() {
    let source = format!("{}x", "\n".repeat(70_000));
    assert_eq!(scan(&source), vec![Token::new(TokenType::Identifier, "x", 70_001)]);
}

#[test]
fn a_token_is_on_the_line_after_the_newlines_before_it() {
    let source = "a // one\n\n \"s\" 2.5\n// only a comment\n!= b";
    let tokens = scan(source);
    let lines: Vec<i32> = tokens.iter().map(|token| token.line_number).collect();
    assert_eq!(lines, vec![1, 3, 3, 5, 5]);
    let kinds: Vec<TokenType> = tokens.iter().map(|token| token.token_type).collect();
    assert_eq!(
        kinds,
        vec![
            TokenType::Identifier,
            TokenType::String,
            TokenType::Number,
            TokenType::BangEqual,
            TokenType::Identifier,
        ]
    );
}
