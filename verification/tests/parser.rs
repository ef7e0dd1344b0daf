use rustlox::ast::{
    ComparisonOperator, EqualityOperator, Literal, Node, ProductOperator, SumOperator,
    UnaryOperator,
};
use rustlox::parser::recursive_descent::RecursiveDescentParser;
use rustlox::parser::Parse;
use rustlox::token::{Token, TokenType};

/// The node of a number literal with the text `text`, whose value is `value`.
fn number(text: &str, value: f64) -> Node {
    assert_eq!(text.parse::<f64>(), Ok(value));
    Node::Primary(Literal::Number(text.to_string()))
}

#[test]
fn can_parse_series() {
    let input = &[
        Token::new(TokenType::Number, "1", 1),
        Token::new(TokenType::Comma, ",", 1),
        Token::new(TokenType::Number, "2", 1),
    ];
    let expected_output = Node::Expression(Box::new(Node::Series(
        Box::new(number("1", 1.0)),
        Box::new(number("2", 2.0)),
    )));
    let output = RecursiveDescentParser::new().parse(input).unwrap();

    assert_eq!(output, expected_output);
}

#[test]
fn series_is_left_associative() {
    let input = &[
        Token::new(TokenType::Number, "1", 1),
        Token::new(TokenType::Comma, ",", 1),
        Token::new(TokenType::Number, "2", 1),
        Token::new(TokenType::Comma, ",", 1),
        Token::new(TokenType::Number, "3", 1),
    ];
    let expected_output = Node::Expression(Box::new(Node::Series(
        Box::new(Node::Series(
            Box::new(number("1", 1.0)),
            Box::new(number("2", 2.0)),
        )),
        Box::new(number("3", 3.0)),
    )));

    let output = RecursiveDescentParser::new().parse(input).unwrap();
    assert_eq!(output, expected_output);
}

#[test]
fn can_parse_equality() {
    let test_cases = [
        (
            vec![
                Token::new(TokenType::Number, "1", 1),
                Token::new(TokenType::EqualEqual, "==", 1),
                Token::new(TokenType::Number, "2", 1),
            ],
            Node::Expression(Box::new(Node::Equality(
                EqualityOperator::Equal,
                Box::new(number("1", 1.0)),
                Box::new(number("2", 2.0)),
            ))),
        ),
        (
            vec![
                Token::new(TokenType::Number, "1", 1),
                Token::new(TokenType::BangEqual, "!=", 1),
                Token::new(TokenType::Number, "2", 1),
            ],
            Node::Expression(Box::new(Node::Equality(
                EqualityOperator::NotEqual,
                Box::new(number("1", 1.0)),
                Box::new(number("2", 2.0)),
            ))),
        ),
    ];

    for (input, expected_output) in test_cases {
        let output = RecursiveDescentParser::new().parse(&input).unwrap();
        assert_eq!(output, expected_output);
    }
}

#[test]
fn equality_is_left_associative() {
    let test_cases = [
        (
            vec![
                Token::new(TokenType::Number, "1", 1),
                Token::new(TokenType::EqualEqual, "==", 1),
                Token::new(TokenType::Number, "2", 1),
                Token::new(TokenType::EqualEqual, "==", 1),
                Token::new(TokenType::Number, "3", 1),
            ],
            Node::Expression(Box::new(Node::Equality(
                EqualityOperator::Equal,
                Box::new(Node::Equality(
                    EqualityOperator::Equal,
                    Box::new(number("1", 1.0)),
                    Box::new(number("2", 2.0)),
                )),
                Box::new(number("3", 3.0)),
            ))),
        ),
        (
            vec![
                Token::new(TokenType::Number, "1", 1),
                Token::new(TokenType::BangEqual, "!=", 1),
                Token::new(TokenType::Number, "2", 1),
                Token::new(TokenType::BangEqual, "!=", 1),
                Token::new(TokenType::Number, "3", 1),
            ],
            Node::Expression(Box::new(Node::Equality(
                EqualityOperator::NotEqual,
                Box::new(Node::Equality(
                    EqualityOperator::NotEqual,
                    Box::new(number("1", 1.0)),
                    Box::new(number("2", 2.0)),
                )),
                Box::new(number("3", 3.0)),
            ))),
        ),
    ];

    for (input, expected_output) in test_cases {
        let output = RecursiveDescentParser::new().parse(&input).unwrap();
        assert_eq!(output, expected_output);
    }
}

#[test]
fn can_parse_comparison() {
    let test_cases = [
        (
            vec![
                Token::new(TokenType::Number, "1", 1),
                Token::new(TokenType::Greater, ">", 1),
                Token::new(TokenType::Number, "2", 1),
            ],
            Node::Expression(Box::new(Node::Comparison(
                ComparisonOperator::Greater,
                Box::new(number("1", 1.0)),
                Box::new(number("2", 2.0)),
            ))),
        ),
        (
            vec![
                Token::new(TokenType::Number, "1", 1),
                Token::new(TokenType::GreaterEqual, ">=", 1),
                Token::new(TokenType::Number, "2", 1),
            ],
            Node::Expression(Box::new(Node::Comparison(
                ComparisonOperator::GreaterEqual,
                Box::new(number("1", 1.0)),
                Box::new(number("2", 2.0)),
            ))),
        ),
        (
            vec![
                Token::new(TokenType::Number, "1", 1),
                Token::new(TokenType::Less, "<", 1),
                Token::new(TokenType::Number, "2", 1),
            ],
            Node::Expression(Box::new(Node::Comparison(
                ComparisonOperator::Less,
                Box::new(number("1", 1.0)),
                Box::new(number("2", 2.0)),
            ))),
        ),
        (
            vec![
                Token::new(TokenType::Number, "1", 1),
                Token::new(TokenType::LessEqual, "<=", 1),
                Token::new(TokenType::Number, "2", 1),
            ],
            Node::Expression(Box::new(Node::Comparison(
                ComparisonOperator::LessEqual,
                Box::new(number("1", 1.0)),
                Box::new(number("2", 2.0)),
            ))),
        ),
    ];

    for (input, expected_output) in test_cases {
        let output = RecursiveDescentParser::new().parse(&input).unwrap();
        assert_eq!(output, expected_output);
    }
}

#[test]
fn comparison_is_left_associative() {
    let test_cases = [
        (
            vec![
                Token::new(TokenType::Number, "1", 1),
                Token::new(TokenType::Greater, ">", 1),
                Token::new(TokenType::Number, "2", 1),
                Token::new(TokenType::Greater, ">", 1),
                Token::new(TokenType::Number, "3", 1),
            ],
            Node::Expression(Box::new(Node::Comparison(
                ComparisonOperator::Greater,
                Box::new(Node::Comparison(
                    ComparisonOperator::Greater,
                    Box::new(number("1", 1.0)),
                    Box::new(number("2", 2.0)),
                )),
                Box::new(number("3", 3.0)),
            ))),
        ),
        (
            vec![
                Token::new(TokenType::Number, "1", 1),
                Token::new(TokenType::GreaterEqual, ">=", 1),
                Token::new(TokenType::Number, "2", 1),
                Token::new(TokenType::GreaterEqual, ">=", 1),
                Token::new(TokenType::Number, "3", 1),
            ],
            Node::Expression(Box::new(Node::Comparison(
                ComparisonOperator::GreaterEqual,
                Box::new(Node::Comparison(
                    ComparisonOperator::GreaterEqual,
                    Box::new(number("1", 1.0)),
                    Box::new(number("2", 2.0)),
                )),
                Box::new(number("3", 3.0)),
            ))),
        ),
        (
            vec![
                Token::new(TokenType::Number, "1", 1),
                Token::new(TokenType::Less, "<", 1),
                Token::new(TokenType::Number, "2", 1),
                Token::new(TokenType::Less, "<", 1),
                Token::new(TokenType::Number, "3", 1),
            ],
            Node::Expression(Box::new(Node::Comparison(
                ComparisonOperator::Less,
                Box::new(Node::Comparison(
                    ComparisonOperator::Less,
                    Box::new(number("1", 1.0)),
                    Box::new(number("2", 2.0)),
                )),
                Box::new(number("3", 3.0)),
            ))),
        ),
        (
            vec![
                Token::new(TokenType::Number, "1", 1),
                Token::new(TokenType::LessEqual, "<=", 1),
                Token::new(TokenType::Number, "2", 1),
                Token::new(TokenType::LessEqual, "<=", 1),
                Token::new(TokenType::Number, "3", 1),
            ],
            Node::Expression(Box::new(Node::Comparison(
                ComparisonOperator::LessEqual,
                Box::new(Node::Comparison(
                    ComparisonOperator::LessEqual,
                    Box::new(number("1", 1.0)),
                    Box::new(number("2", 2.0)),
                )),
                Box::new(number("3", 3.0)),
            ))),
        ),
    ];

    for (input, expected_output) in test_cases {
        let output = RecursiveDescentParser::new().parse(&input).unwrap();
        assert_eq!(output, expected_output);
    }
}

#[test]
fn can_parse_sum() {
    let test_cases = [
        (
            vec![
                Token::new(TokenType::Number, "1", 1),
                Token::new(TokenType::Plus, "+", 1),
                Token::new(TokenType::Number, "2", 1),
            ],
            Node::Expression(Box::new(Node::Sum(
                SumOperator::Plus,
                Box::new(number("1", 1.0)),
                Box::new(number("2", 2.0)),
            ))),
        ),
        (
            vec![
                Token::new(TokenType::Number, "1", 1),
                Token::new(TokenType::Minus, "-", 1),
                Token::new(TokenType::Number, "2", 1),
            ],
            Node::Expression(Box::new(Node::Sum(
                SumOperator::Minus,
                Box::new(number("1", 1.0)),
                Box::new(number("2", 2.0)),
            ))),
        ),
    ];

    for (input, expected_output) in test_cases {
        let output = RecursiveDescentParser::new().parse(&input).unwrap();
        assert_eq!(output, expected_output);
    }
}

#[test]
fn sum_is_left_associative() {
    let test_cases = [
        (
            vec![
                Token::new(TokenType::Number, "1", 1),
                Token::new(TokenType::Plus, "+", 1),
                Token::new(TokenType::Number, "2", 1),
                Token::new(TokenType::Plus, "+", 1),
                Token::new(TokenType::Number, "3", 1),
            ],
            Node::Expression(Box::new(Node::Sum(
                SumOperator::Plus,
                Box::new(Node::Sum(
                    SumOperator::Plus,
                    Box::new(number("1", 1.0)),
                    Box::new(number("2", 2.0)),
                )),
                Box::new(number("3", 3.0)),
            ))),
        ),
        (
            vec![
                Token::new(TokenType::Number, "1", 1),
                Token::new(TokenType::Minus, "-", 1),
                Token::new(TokenType::Number, "2", 1),
                Token::new(TokenType::Minus, "-", 1),
                Token::new(TokenType::Number, "3", 1),
            ],
            Node::Expression(Box::new(Node::Sum(
                SumOperator::Minus,
                Box::new(Node::Sum(
                    SumOperator::Minus,
                    Box::new(number("1", 1.0)),
                    Box::new(number("2", 2.0)),
                )),
                Box::new(number("3", 3.0)),
            ))),
        ),
    ];

    for (input, expected_output) in test_cases {
        let output = RecursiveDescentParser::new().parse(&input).unwrap();
        assert_eq!(output, expected_output);
    }
}

#[test]
fn product_is_left_associative() {
    let test_cases = [
        (
            vec![
                Token::new(TokenType::Number, "1", 1),
                Token::new(TokenType::Star, "*", 1),
                Token::new(TokenType::Number, "2", 1),
                Token::new(TokenType::Star, "*", 1),
                Token::new(TokenType::Number, "3", 1),
            ],
            Node::Expression(Box::new(Node::Product(
                ProductOperator::Star,
                Box::new(Node::Product(
                    ProductOperator::Star,
                    Box::new(number("1", 1.0)),
                    Box::new(number("2", 2.0)),
                )),
                Box::new(number("3", 3.0)),
            ))),
        ),
        (
            vec![
                Token::new(TokenType::Number, "1", 1),
                Token::new(TokenType::Slash, "/", 1),
                Token::new(TokenType::Number, "2", 1),
                Token::new(TokenType::Slash, "/", 1),
                Token::new(TokenType::Number, "3", 1),
            ],
            Node::Expression(Box::new(Node::Product(
                ProductOperator::Slash,
                Box::new(Node::Product(
                    ProductOperator::Slash,
                    Box::new(number("1", 1.0)),
                    Box::new(number("2", 2.0)),
                )),
                Box::new(number("3", 3.0)),
            ))),
        ),
    ];

    for (input, expected_output) in test_cases {
        let output = RecursiveDescentParser::new().parse(&input).unwrap();
        assert_eq!(output, expected_output);
    }
}

#[test]
fn can_parse_product() {
    let test_cases = [
        (
            vec![
                Token::new(TokenType::Number, "1", 1),
                Token::new(TokenType::Star, "*", 1),
                Token::new(TokenType::Number, "2", 1),
            ],
            Node::Expression(Box::new(Node::Product(
                ProductOperator::Star,
                Box::new(number("1", 1.0)),
                Box::new(number("2", 2.0)),
            ))),
        ),
        (
            vec![
                Token::new(TokenType::Number, "1", 1),
                Token::new(TokenType::Slash, "/", 1),
                Token::new(TokenType::Number, "2", 1),
            ],
            Node::Expression(Box::new(Node::Product(
                ProductOperator::Slash,
                Box::new(number("1", 1.0)),
                Box::new(number("2", 2.0)),
            ))),
        ),
    ];

    for (input, expected_output) in test_cases {
        let output = RecursiveDescentParser::new().parse(&input).unwrap();
        assert_eq!(output, expected_output);
    }
}

#[test]
fn can_parse_unary() {
    let test_cases = [
        (
            vec![
                Token::new(TokenType::Bang, "!", 1),
                Token::new(TokenType::True, "true", 1),
            ],
            Node::Expression(Box::new(Node::Unary(
                UnaryOperator::Bang,
                Box::new(Node::Primary(Literal::True)),
            ))),
        ),
        (
            vec![
                Token::new(TokenType::Minus, "-", 1),
                Token::new(TokenType::Number, "123.456", 1),
            ],
            Node::Expression(Box::new(Node::Unary(
                UnaryOperator::Minus,
                Box::new(number("123.456", 123.456)),
            ))),
        ),
    ];

    for (input, expected_output) in test_cases {
        let output = RecursiveDescentParser::new().parse(&input).unwrap();
        assert_eq!(output, expected_output);
    }
}

#[test]
fn unary_is_right_associative() {
    let test_cases = [
        (
            vec![
                Token::new(TokenType::Bang, "!", 1),
                Token::new(TokenType::Bang, "!", 1),
                Token::new(TokenType::True, "true", 1),
            ],
            Node::Expression(Box::new(Node::Unary(
                UnaryOperator::Bang,
                Box::new(Node::Unary(
                    UnaryOperator::Bang,
                    Box::new(Node::Primary(Literal::True)),
                )),
            ))),
        ),
        (
            vec![
                Token::new(TokenType::Minus, "-", 1),
                Token::new(TokenType::Minus, "-", 1),
                Token::new(TokenType::Number, "123.456", 1),
            ],
            Node::Expression(Box::new(Node::Unary(
                UnaryOperator::Minus,
                Box::new(Node::Unary(
                    UnaryOperator::Minus,
                    Box::new(number("123.456", 123.456)),
                )),
            ))),
        ),
    ];

    for (input, expected_output) in test_cases {
        let output = RecursiveDescentParser::new().parse(&input).unwrap();
        assert_eq!(output, expected_output);
    }
}

#[test]
fn can_parse_keywords() {
    let test_cases = [
        (
                vec![Token::new(TokenType::Nil, "nil", 1)],
                Node::Expression(Box::new(Node::Primary(Literal::Nil))),
        ),
        (
                vec![Token::new(TokenType::True, "true", 1)],
                Node::Expression(Box::new(Node::Primary(Literal::True))),
        ),
        (
                vec![Token::new(TokenType::False, "false", 1)],
                Node::Expression(Box::new(Node::Primary(Literal::False))),
        ),
    ];

    for (input, expected_output) in test_cases {
        let output = RecursiveDescentParser::new().parse(&input).unwrap();
        assert_eq!(output, expected_output);
    }
}

#[test]
fn can_parse_string_literal() {
    let input = &[Token::new(TokenType::String, "I am a string!", 1)];
    let expected_output = Node::Expression(Box::new(Node::Primary(Literal::String(
        String::from("I am a string!"),
    ))));
    let output = RecursiveDescentParser::new().parse(input).unwrap();

    assert_eq!(output, expected_output);
}

#[test]
fn can_parse_number_literal() {
    let input = &[Token::new(TokenType::Number, "123.456", 1)];
    let expected_output = Node::Expression(Box::new(number("123.456", 123.456)));
    let output = RecursiveDescentParser::new().parse(input).unwrap();

    assert_eq!(output, expected_output);
}

#[test]
fn can_parse_parenthetical_expression() {
    let input = &[
        Token::new(TokenType::LeftParen, "(", 1),
        Token::new(TokenType::Nil, "nil", 1),
        Token::new(TokenType::RightParen, ")", 1),
    ];
    // The parentheses leave no node of their own in the tree.
    let expected_output = Node::Expression(Box::new(Node::Primary(Literal::Nil)));
    let output = RecursiveDescentParser::new().parse(input).unwrap();

    assert_eq!(output, expected_output);
}

fn scan(source: &str) -> Vec<Token> {
    rustlox::scanner::Scanner::new().scan(source).unwrap()
}

fn parse(source: &str) -> Node {
    let tokens = scan(source);
    RecursiveDescentParser::new().parse(&tokens).unwrap()
}

fn fault(source: &str) -> (i32, String) {
    let tokens = scan(source);
    let error = RecursiveDescentParser::new().parse(&tokens).unwrap_err();
    (error.line_number, error.message)
}

fn expression(node: Node) -> Node {
    Node::Expression(Box::new(node))
}

fn sum(operator: SumOperator, left: Node, right: Node) -> Node {
    Node::Sum(operator, Box::new(left), Box::new(right))
}

fn product(operator: ProductOperator, left: Node, right: Node) -> Node {
    Node::Product(operator, Box::new(left), Box::new(right))
}

#[test]
fn sums_lean_to_the_left() {
    assert_eq!(
        parse("1+2+3"),
        expression(sum(
            SumOperator::Plus,
            sum(SumOperator::Plus, number("1", 1.0), number("2", 2.0)),
            number("3", 3.0),
        ))
    );
    assert_eq!(
        parse("1-2-3"),
        expression(sum(
            SumOperator::Minus,
            sum(SumOperator::Minus, number("1", 1.0), number("2", 2.0)),
            number("3", 3.0),
        ))
    );
}

#[test]
fn products_bind_tighter_than_sums() {
    assert_eq!(
        parse("1+2*3"),
        expression(sum(
            SumOperator::Plus,
            number("1", 1.0),
            product(ProductOperator::Star, number("2", 2.0), number("3", 3.0)),
        ))
    );
    assert_eq!(
        parse("1*2+3"),
        expression(sum(
            SumOperator::Plus,
            product(ProductOperator::Star, number("1", 1.0), number("2", 2.0)),
            number("3", 3.0),
        ))
    );
}

#[test]
fn every_tier_binds_tighter_than_the_one_before() {
    // 1 , 2 == 3 < 4 + 5 * -6
    assert_eq!(
        parse("1 , 2 == 3 < 4 + 5 * -6"),
        expression(Node::Series(
            Box::new(number("1", 1.0)),
            Box::new(Node::Equality(
                EqualityOperator::Equal,
                Box::new(number("2", 2.0)),
                Box::new(Node::Comparison(
                    ComparisonOperator::Less,
                    Box::new(number("3", 3.0)),
                    Box::new(sum(
                        SumOperator::Plus,
                        number("4", 4.0),
                        product(
                            ProductOperator::Star,
                            number("5", 5.0),
                            Node::Unary(UnaryOperator::Minus, Box::new(number("6", 6.0))),
                        ),
                    )),
                )),
            )),
        ))
    );
}

#[test]
fn prefix_operators_nest_to_the_right() {
    assert_eq!(
        parse("!!true"),
        expression(Node::Unary(
            UnaryOperator::Bang,
            Box::new(Node::Unary(
                UnaryOperator::Bang,
                Box::new(Node::Primary(Literal::True)),
            )),
        ))
    );
    assert_eq!(
        parse("-!-1"),
        expression(Node::Unary(
            UnaryOperator::Minus,
            Box::new(Node::Unary(
                UnaryOperator::Bang,
                Box::new(Node::Unary(
                    UnaryOperator::Minus,
                    Box::new(number("1", 1.0)),
                )),
            )),
        ))
    );
}

#[test]
fn parentheses_are_transparent() {
    assert_eq!(parse("( nil )"), parse("nil"));
    assert_eq!(parse("((1+2))"), parse("1+2"));
    assert_eq!(
        parse("(1+2)*3"),
        expression(product(
            ProductOperator::Star,
            sum(SumOperator::Plus, number("1", 1.0), number("2", 2.0)),
            number("3", 3.0),
        ))
    );
    assert_eq!(
        parse("1-(2-3)"),
        expression(sum(
            SumOperator::Minus,
            number("1", 1.0),
            sum(SumOperator::Minus, number("2", 2.0), number("3", 3.0)),
        ))
    );
}

#[test]
fn a_token_behind_the_expression_is_a_fault() {
    assert_eq!(fault("1 1"), (1, "unexpected trailing token".to_string()));
    assert_eq!(fault("1\n2"), (2, "unexpected trailing token".to_string()));
    assert_eq!(fault("nil )"), (1, "unexpected trailing token".to_string()));
    assert_eq!(fault("(1) x"), (1, "unexpected trailing token".to_string()));
}

#[test]
fn a_missing_parenthesis_cites_the_last_token() {
    assert_eq!(fault("( nil"), (1, "unexpected token: nil".to_string()));
    assert_eq!(fault("(\n1 +\n2"), (3, "unexpected token: 2".to_string()));
    // A token that is no closing parenthesis: the fault still cites the
    // token before it.
    assert_eq!(fault("( 1\n;"), (1, "unexpected token: 1".to_string()));
}

#[test]
fn a_token_that_begins_no_expression_is_a_fault() {
    assert_eq!(fault(")"), (1, "unexpected token: )".to_string()));
    assert_eq!(fault("1 +\n*"), (2, "unexpected token: *".to_string()));
    assert_eq!(fault("x"), (1, "unexpected token: x".to_string()));
    assert_eq!(fault("\n\nprint 1"), (3, "unexpected token: print".to_string()));
    assert_eq!(fault("()"), (1, "unexpected token: )".to_string()));
}

#[test]
fn tokens_that_end_too_early_are_a_fault() {
    assert_eq!(fault(""), (1, "unexpected end of input".to_string()));
    assert_eq!(fault("1 +"), (1, "unexpected end of input".to_string()));
    assert_eq!(fault("1\n*\n"), (2, "unexpected end of input".to_string()));
    assert_eq!(fault("-"), (1, "unexpected end of input".to_string()));
    assert_eq!(fault("1,\n("), (2, "unexpected end of input".to_string()));
}

#[test]
fn a_number_token_with_a_malformed_lexeme_is_a_fault() {
    let tokens = [Token::new(TokenType::Number, "12ab", 4)];
    let error = RecursiveDescentParser::new().parse(&tokens).unwrap_err();
    assert_eq!(error.line_number, 4);
    assert_eq!(error.message, "failed to parse number");
    let tokens = [Token::new(TokenType::Number, "", 2)];
    let error = RecursiveDescentParser::new().parse(&tokens).unwrap_err();
    assert_eq!(error.line_number, 2);
    assert_eq!(error.message, "failed to parse number");
}

#[test]
fn a_number_token_keeps_its_literal() {
    for text in ["1e5", "-2.5E-3", "inf", "+Infinity", "NaN", "7.", ".5"] {
        let tokens = [Token::new(TokenType::Number, text, 1)];
        let output = RecursiveDescentParser::new().parse(&tokens).unwrap();
        assert!(text.parse::<f64>().is_ok());
        assert_eq!(
            output,
            expression(Node::Primary(Literal::Number(text.to_string())))
        );
    }
}

#[test]
fn the_first_fault_ends_the_parse() {
    // Both the `*` and the `)` are faults; the first one is reported.
    assert_eq!(fault("1 + * )"), (1, "unexpected token: *".to_string()));
}

#[test]
fn a_parser_parses_again() {
    let first = scan("1+2");
    let second = scan("nil");
    let mut parser = RecursiveDescentParser::new();
    assert!(parser.parse(&first).is_ok());
    assert_eq!(
        parser.parse(&second).unwrap(),
        expression(Node::Primary(Literal::Nil))
    );
}

#[test]
fn strings_keep_their_text() {
    assert_eq!(
        parse("\"a\" , \"\""),
        expression(Node::Series(
            Box::new(Node::Primary(Literal::String("a".to_string()))),
            Box::new(Node::Primary(Literal::String(String::new()))),
        ))
    );
}

#[test]
fn a_parse_error_keeps_what_it_is_made_of() {
    let error = rustlox::parser::Error::new(9, "unexpected trailing token");
    assert_eq!(error.line_number, 9);
    assert_eq!(error.message, "unexpected trailing token");
}
