use calculator::ast::Node;
use calculator::calculate;
use calculator::decimal::Decimal;
use calculator::parser::Parser;
use calculator::token::Token;
use calculator::tokenizer::Tokenizer;

fn dec(n: i64) -> Decimal {
    Decimal::new(n, 0)
}

#[test]
fn test_evaluate() {
    let expr = Node::Add(Box::new(Node::Number(dec(1))), Box::new(Node::Number(dec(2))));
    assert_eq!(expr.evaluate(), Ok(dec(3)));
}

#[test]
fn test_calculate() {
    assert_eq!(calculate("1 + 2").unwrap(), dec(3));
    assert_eq!(calculate("1 + 2 * 3 + (-1)").unwrap(), dec(6));
}

#[test]
fn test_parse_expression() {
    let mut parser = Parser::new("(1 +2  )*3").unwrap();
    assert_eq!(
        parser.parse(),
        Ok(Node::Multiply(
            Box::new(Node::Add(Box::new(Node::Number(dec(1))), Box::new(Node::Number(dec(2))))),
            Box::new(Node::Number(dec(3)))
        ))
    );
}

#[test]
fn test_tokenizer() {
    let tokenizer = Tokenizer::new("(1+   2)*3");
    assert_eq!(
        tokenizer.collect(),
        vec![
            Token::LeftParen,
            Token::Number(dec(1)),
            Token::Add,
            Token::Number(dec(2)),
            Token::RightParen,
            Token::Multiply,
            Token::Number(dec(3)),
            Token::EOF,
        ]
    );
}
