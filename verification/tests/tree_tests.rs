use oil::expression::{Expression, Piece};
use oil::object::Object;
use oil::token::{Token, TokenType};

fn render(pieces: &[Piece]) -> String {
    pieces
        .iter()
        .map(|piece| match piece {
            Piece::Text(s) => s.clone(),
            Piece::Number(n) => format!("{}", f64::from_bits(*n)),
        })
        .collect()
}

fn op(kind: TokenType, text: &str) -> Token {
    Token::new(kind, text, Object::Null, 0)
}

fn num(x: f64) -> Expression {
    Expression::literal(Object::Num(x.to_bits()))
}

#[test]
fn tree_of_nested_expressions() {
    let e = Expression::binary(
        Expression::unary(op(TokenType::Minus, "-"), num(123.0)),
        op(TokenType::Asterisk, "*"),
        Expression::grouping(num(45.67)),
    );
    assert_eq!(render(&e.to_tree()), "(* (- 123) 45.67)");
}

#[test]
fn tree_of_literals_and_names() {
    assert_eq!(render(&Expression::literal(Object::Str("hi".into())).to_tree()), "hi");
    assert_eq!(render(&Expression::literal(Object::Bool(true)).to_tree()), "true");
    assert_eq!(render(&Expression::literal(Object::Null).to_tree()), "null");
    let assign = Expression::assign(op(TokenType::Identifier, "x"), num(1.0));
    assert_eq!(render(&assign.to_tree()), "(= x 1)");
    let logical = Expression::logical(
        Expression::variable(op(TokenType::Identifier, "a")),
        op(TokenType::Or, "or"),
        Expression::literal(Object::Bool(false)),
    );
    assert_eq!(render(&logical.to_tree()), "(or a false)");
}

#[test]
fn tokens_show_their_value_or_their_text() {
    let s = Token::new(TokenType::String, "\"ab\"", Object::Str("ab".into()), 0);
    assert_eq!(render(&[s.display()]), "ab");
    let k = op(TokenType::Var, "var");
    assert_eq!(render(&[k.display()]), "var");
    let n = Token::new(TokenType::Number, "2.50", Object::Num(2.5f64.to_bits()), 0);
    assert_eq!(render(&[n.display()]), "2.5");
}
