use rexpr::eval::Eval;
use rexpr::eval::EvalFault;
use rexpr::parser::Parser;
use rexpr::tokenizer::Tokenizer;

#[test]
fn number() {
    let mut tokenizer = Tokenizer::new("1");
    let tokens = tokenizer.tokenize().unwrap();
    let parser = Parser::new(tokens);
    let expr = parser.parse().unwrap();
    let eval = Eval::new();
    let result = eval.eval(&expr).unwrap();
    assert_eq!(1, result)
}

#[test]
fn eval_negtive_number() {
    let mut tokenizer = Tokenizer::new("-1");
    let tokens = tokenizer.tokenize().unwrap();
    let parser = Parser::new(tokens);
    let expr = parser.parse().unwrap();
    let eval = Eval::new();
    let result = eval.eval(&expr).unwrap();
    assert_eq!(-1, result)
}

#[test]
fn plus() {
    let mut tokenizer = Tokenizer::new("1 + 2");
    let tokens = tokenizer.tokenize().unwrap();
    let parser = Parser::new(tokens);
    let expr = parser.parse().unwrap();
    let eval = Eval::new();
    let result = eval.eval(&expr).unwrap();
    assert_eq!(3, result)
}

#[test]
fn minus() {
    let mut tokenizer = Tokenizer::new("1 - 2");
    let tokens = tokenizer.tokenize().unwrap();
    let parser = Parser::new(tokens);
    let expr = parser.parse().unwrap();
    let eval = Eval::new();
    let result = eval.eval(&expr).unwrap();
    assert_eq!(-1, result)
}

#[test]
fn mul() {
    let mut tokenizer = Tokenizer::new("1 * 2");
    let tokens = tokenizer.tokenize().unwrap();
    let parser = Parser::new(tokens);
    let expr = parser.parse().unwrap();
    let eval = Eval::new();
    let result = eval.eval(&expr).unwrap();
    assert_eq!(2, result)
}

#[test]
fn div() {
    let mut tokenizer = Tokenizer::new("1 / 2");
    let tokens = tokenizer.tokenize().unwrap();
    let parser = Parser::new(tokens);
    let expr = parser.parse().unwrap();
    let eval = Eval::new();
    let result = eval.eval(&expr).unwrap();
    assert_eq!(0, result)
}

#[test]
fn normal_expr() {
    let mut tokenizer = Tokenizer::new("1 + 2 * 3");
    let tokens = tokenizer.tokenize().unwrap();
    let parser = Parser::new(tokens);
    let expr = parser.parse().unwrap();
    let eval = Eval::new();
    let result = eval.eval(&expr).unwrap();
    assert_eq!(7, result)
}

#[test]
fn parenthesis_expr() {
    let mut tokenizer = Tokenizer::new("(1 + 2) * 3");
    let tokens = tokenizer.tokenize().unwrap();
    let parser = Parser::new(tokens);
    let expr = parser.parse().unwrap();
    let eval = Eval::new();
    let result = eval.eval(&expr).unwrap();
    assert_eq!(9, result)
}

#[test]
fn negetive_expr() {
    let mut tokenizer = Tokenizer::new("-(1 + 2) * 3");
    let tokens = tokenizer.tokenize().unwrap();
    let parser = Parser::new(tokens);
    let expr = parser.parse().unwrap();
    let eval = Eval::new();
    let result = eval.eval(&expr).unwrap();
    assert_eq!(-9, result)
}

#[test]
fn negetive_number_in_expr() {
    let mut tokenizer = Tokenizer::new("1 + -2 * 3");
    let tokens = tokenizer.tokenize().unwrap();
    let parser = Parser::new(tokens);
    let expr = parser.parse().unwrap();
    let eval = Eval::new();
    let result = eval.eval(&expr).unwrap();
    assert_eq!(-5, result)
}

#[test]
fn division_by_zero_faults() {
    let mut tokenizer = Tokenizer::new("1 / 0");
    let tokens = tokenizer.tokenize().unwrap();
    let parser = Parser::new(tokens);
    let expr = parser.parse().unwrap();
    let eval = Eval::new();
    let result = eval.eval(&expr);
    assert_eq!(result, Err(EvalFault::DivisionByZero));
}

#[test]
fn division_truncates_toward_zero() {
    let mut tokenizer = Tokenizer::new("-(7) / 2");
    let tokens = tokenizer.tokenize().unwrap();
    let parser = Parser::new(tokens);
    let expr = parser.parse().unwrap();
    let eval = Eval::new();
    let result = eval.eval(&expr).unwrap();
    assert_eq!(-3, result)
}

#[test]
fn subtraction_groups_right() {
    let mut tokenizer = Tokenizer::new("1 - 2 - 3");
    let tokens = tokenizer.tokenize().unwrap();
    let parser = Parser::new(tokens);
    let expr = parser.parse().unwrap();
    let eval = Eval::new();
    let result = eval.eval(&expr).unwrap();
    assert_eq!(2, result)
}

#[test]
fn division_groups_right() {
    let mut tokenizer = Tokenizer::new("8 / 4 / 2");
    let tokens = tokenizer.tokenize().unwrap();
    let parser = Parser::new(tokens);
    let expr = parser.parse().unwrap();
    let eval = Eval::new();
    let result = eval.eval(&expr).unwrap();
    assert_eq!(4, result)
}

#[test]
fn addition_overflow_faults() {
    let mut tokenizer = Tokenizer::new("2147483647 + 1");
    let tokens = tokenizer.tokenize().unwrap();
    let parser = Parser::new(tokens);
    let expr = parser.parse().unwrap();
    let eval = Eval::new();
    let result = eval.eval(&expr);
    assert_eq!(result, Err(EvalFault::Overflow));
}
