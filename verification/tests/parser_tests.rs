use rexpr::parser::BinaryOperator;
use rexpr::parser::Node;
use rexpr::parser::Parser;
use rexpr::parser::UnaryOperator;
use rexpr::tokenizer::Token;
use rexpr::tokenizer::Tokenizer;

#[test]
fn single_number() {
    let mut tokenizer = Tokenizer::new("1");
    let tokens = tokenizer.tokenize().unwrap();
    let parser = Parser::new(tokens);
    let expr = parser.parse().unwrap();
    assert_eq!(expr, Node::Number(1))
}

#[test]
fn parser_negtive_number() {
    let mut tokenizer = Tokenizer::new("-1");
    let tokens = tokenizer.tokenize().unwrap();
    let parser = Parser::new(tokens);
    let expr = parser.parse().unwrap();
    assert_eq!(
        expr,
        Node::UnaryExpr {
            op: UnaryOperator::Neg,
            child: Box::new(Node::Number(1))
        }
    )
}

#[test]
fn negtive_expr() {
    let mut tokenizer = Tokenizer::new("-(1 + 2)");
    let tokens = tokenizer.tokenize().unwrap();
    let parser = Parser::new(tokens);
    let expr = parser.parse().unwrap();
    assert_eq!(
        expr,
        Node::UnaryExpr {
            op: UnaryOperator::Neg,
            child: Box::new(Node::BinaryExpr {
                op: BinaryOperator::Plus,
                lhs: Box::new(Node::Number(1)),
                rhs: Box::new(Node::Number(2))
            })
        }
    )
}

#[test]
fn normal_prior() {
    let mut tokenizer = Tokenizer::new("1 + 2 * 3");
    let tokens = tokenizer.tokenize().unwrap();
    let parser = Parser::new(tokens);
    let expr = parser.parse().unwrap();
    assert_eq!(
        expr,
        Node::BinaryExpr {
            op: BinaryOperator::Plus,
            lhs: Box::new(Node::Number(1)),
            rhs: Box::new(Node::BinaryExpr {
                op: BinaryOperator::Mul,
                lhs: Box::new(Node::Number(2)),
                rhs: Box::new(Node::Number(3))
            })
        }
    )
}

#[test]
fn parenthesis_prior() {
    let mut tokenizer = Tokenizer::new("(1 + 2) * 3");
    let tokens = tokenizer.tokenize().unwrap();
    let parser = Parser::new(tokens);
    let expr = parser.parse().unwrap();
    assert_eq!(
        expr,
        Node::BinaryExpr {
            op: BinaryOperator::Mul,
            lhs: Box::new(Node::BinaryExpr {
                op: BinaryOperator::Plus,
                lhs: Box::new(Node::Number(1)),
                rhs: Box::new(Node::Number(2))
            }),
            rhs: Box::new(Node::Number(3)),
        }
    )
}

#[test]
fn unexpected_token_names_it() {
    let mut tokenizer = Tokenizer::new(")1 + 2(");
    let tokens = tokenizer.tokenize().unwrap();
    let parser = Parser::new(tokens);
    let err = parser.parse().unwrap_err();
    assert_eq!(err.message(), "unexpected token )");
}

#[test]
fn empty_input_expects_factor() {
    let parser = Parser::new(vec![]);
    let err = parser.parse().unwrap_err();
    assert_eq!(err.message(), "expected factor, found end of input");
}

#[test]
fn missing_close_paren_is_reported() {
    let mut tokenizer = Tokenizer::new("(1 + 2");
    let tokens = tokenizer.tokenize().unwrap();
    let parser = Parser::new(tokens);
    let err = parser.parse().unwrap_err();
    assert_eq!(err.message(), "expected ) but found end of input");
}

#[test]
fn close_paren_mismatch_names_found_token() {
    let mut tokenizer = Tokenizer::new("(1 2");
    let tokens = tokenizer.tokenize().unwrap();
    let parser = Parser::new(tokens);
    let err = parser.parse().unwrap_err();
    assert_eq!(err.message(), "expected ) but found 2");
}

#[test]
fn trailing_token_is_rejected() {
    let mut tokenizer = Tokenizer::new("1 2");
    let tokens = tokenizer.tokenize().unwrap();
    let parser = Parser::new(tokens);
    let err = parser.parse().unwrap_err();
    assert_eq!(err.message(), "unexpected trailing token 2");
}

#[test]
fn literal_above_i32_max_is_rejected() {
    let mut tokenizer = Tokenizer::new("2147483648");
    let tokens = tokenizer.tokenize().unwrap();
    let parser = Parser::new(tokens);
    let err = parser.parse().unwrap_err();
    assert_eq!(err.message(), "invalid number literal 2147483648");
}

#[test]
fn malformed_number_token_is_rejected() {
    let parser = Parser::new(vec![Token::Number(String::from("12a"))]);
    let err = parser.parse().unwrap_err();
    assert_eq!(err.message(), "invalid number literal 12a");
}

#[test]
fn leading_zeros_are_accepted() {
    let mut tokenizer = Tokenizer::new("007");
    let tokens = tokenizer.tokenize().unwrap();
    let parser = Parser::new(tokens);
    let expr = parser.parse().unwrap();
    assert_eq!(expr, Node::Number(7))
}
