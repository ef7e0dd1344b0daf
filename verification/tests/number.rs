use rustlox::number::float_text;
use rustlox::scanner::Scanner;
use rustlox::token::TokenType;

#[test]
fn well_formed_literals_are_accepted() {
    for text in [
        "0", "1", "123", "123.456", "1.", ".5", "0.0", "+1", "-1", "-1.5", "1e5", "1E5", "1e+5",
        "1e-5", "1.5e10", "1.e3", ".5e3", "-.5E-3", "inf", "INF", "Inf", "+inf", "-inf",
        "infinity", "Infinity", "-INFINITY", "nan", "NaN", "+nan", "-NAN",
        "00012", "1e0005", "179769313486231570000000000000000000000000000000000000000000000000000000000000000000000000000000000000000000000000000000000000000000000000000000000000000000000000000000000000000000000000000000000000000000000000000000000000000000000000000000000000000000000000000000000000000000000000000000000000000000000000",
    ] {
        assert!(float_text(text), "{}", text);
        assert!(text.parse::<f64>().is_ok(), "{}", text);
    }
}

#[test]
fn malformed_literals_are_refused() {
    for text in [
        "", "+", "-", ".", "+.", "e", "e5", ".e5", "1e", "1e+", "1e-", "1e5.", "1e5e5", "1.5.2",
        "1..", "..1", " 1", "1 ", "1_000", "0x10", "1f", "abc", "12ab", "++1", "--1", "+-1",
        "1+", "1-1", "in", "infinit", "infinityy", "info", "na", "nana", "n", "i", "true",
        "1,5", "\u{661}", "1\u{661}", "\u{ff11}", "\u{130}nf", "1e\u{661}",
    ] {
        assert!(!float_text(text), "{}", text);
        assert!(text.parse::<f64>().is_err(), "{}", text);
    }
}

#[test]
fn scanned_numbers_are_well_formed() {
    let source = "1 23.5 0.0 9. .7 1.2.3 007 x1 4e 5";
    let tokens = Scanner::new().scan(source).unwrap();
    let mut numbers = 0;
    for token in tokens {
        if token.token_type == TokenType::Number {
            numbers += 1;
            assert!(float_text(&token.lexeme), "{}", token.lexeme);
            assert!(token.lexeme.parse::<f64>().is_ok(), "{}", token.lexeme);
        }
    }
    assert_eq!(numbers, 10);
}
