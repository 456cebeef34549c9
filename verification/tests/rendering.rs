use lox::expr::Expr;
use lox::literal::Literal;
use lox::render::Piece;
use lox::stmt::Stmt;
use lox::token::{Token, TokenType};

fn join(pieces: Vec<Piece>) -> String {
    let mut line = String::new();
    for piece in pieces {
        match piece {
            Piece::Text(text) => line.push_str(&text),
            Piece::Number(bits) => line.push_str(&format!("{}", f64::from_bits(bits))),
        }
    }
    line
}

fn number(value: f64) -> Expr {
    Expr::Literal(Literal::Number(value.to_bits()))
}

fn token(token_type: TokenType, lexeme: &str) -> Token {
    Token::new(token_type, lexeme.to_string(), 1)
}

fn name(lexeme: &str) -> Token {
    token(TokenType::Identifier(lexeme.to_string()), lexeme)
}

#[test]
fn test_serialize_grouping() {
    let expr = Expr::Grouping(Box::new(Expr::Literal(Literal::Number(45.67f64.to_bits()))));

    let actual = join(expr.render());
    assert_eq!("(group 45.67)", actual);
}

#[test]
fn test_serialize_unary() {
    let expr = Expr::Unary(
        Token::new(TokenType::Minus, "-".to_string(), 1),
        Box::new(Expr::Literal(Literal::Number(45.67f64.to_bits()))),
    );

    let actual = join(expr.render());
    assert_eq!("(- 45.67)", actual);
}

#[test]
fn test_serialize_binary() {
    let left = Expr::Unary(
        Token::new(TokenType::Minus, "-".to_string(), 1),
        Box::new(Expr::Literal(Literal::Number(123.0f64.to_bits()))),
    );

    let right = Expr::Grouping(Box::new(Expr::Literal(Literal::Number(45.67f64.to_bits()))));

    let operator = Token::new(TokenType::Star, "*".to_string(), 1);

    let expr = Expr::Binary(Box::new(left), operator, Box::new(right));

    let actual = join(expr.render());
    assert_eq!("(* (- 123) (group 45.67))", actual);
}

#[test]
fn values_as_they_are_printed() {
    assert_eq!(join(vec![Literal::String("a b".to_string()).display()]), "a b");
    assert_eq!(join(vec![Literal::Number(1.5f64.to_bits()).display()]), "1.5");
    assert_eq!(join(vec![Literal::Boolean(true).display()]), "true");
    assert_eq!(join(vec![Literal::Boolean(false).display()]), "false");
    assert_eq!(join(vec![Literal::Nil.display()]), "nil");
}

#[test]
fn a_string_is_quoted_for_diagnostics_only() {
    assert_eq!(join(Literal::String("hi".to_string()).debug()), "\"hi\"");
    assert_eq!(join(Literal::Nil.debug()), "nil");
    assert_eq!(join(Literal::Number(2f64.to_bits()).debug()), "2");
}

#[test]
fn variables_assignments_and_logic() {
    let expr = Expr::Assign(
        name("a"),
        Box::new(Expr::Logical(
            Box::new(Expr::Var(name("b"))),
            token(TokenType::Or, "or"),
            Box::new(Expr::Literal(Literal::Nil)),
        )),
    );
    assert_eq!(join(expr.render()), "(assign a (or (var b) nil))");
}

#[test]
fn the_arguments_of_a_call_stand_in_one_quoted_string() {
    let call = Expr::Call(
        Box::new(Expr::Var(name("f"))),
        token(TokenType::RightParen, ")"),
        vec![number(1.0), Expr::Literal(Literal::String("x\"y".to_string())), number(2.5)],
    );
    let expected = format!("((var f) {:?})", "1 x\"y 2.5");
    assert_eq!(join(call.render()), expected);
    assert_eq!(join(call.render()), "((var f) \"1 x\\\"y 2.5\")");

    let bare = Expr::Call(Box::new(Expr::Var(name("g"))), token(TokenType::RightParen, ")"), vec![]);
    assert_eq!(join(bare.render()), "((var g) \"\")");
}

#[test]
fn statements_in_prefix_form() {
    let print = Stmt::Print(number(1.0));
    assert_eq!(join(print.render()), "(print 1)");
    let expression = Stmt::Expression(Expr::Var(name("a")));
    assert_eq!(join(expression.render()), "((var a))");
    let with = Stmt::Var(name("a"), Some(number(2.0)));
    assert_eq!(join(with.render()), "(defvar a 2)");
    let without = Stmt::Var(name("a"), None);
    assert_eq!(join(without.render()), "(defvar a nil)");
    let block = Stmt::Block(vec![Stmt::Print(number(1.0)), Stmt::Print(number(2.0))]);
    assert_eq!(join(block.render()), "(block (print 1) (print 2))");
    let empty = Stmt::Block(vec![]);
    assert_eq!(join(empty.render()), "(block )");
    let both = Stmt::If(
        Expr::Literal(Literal::Boolean(true)),
        Box::new(Stmt::Print(number(1.0))),
        Some(Box::new(Stmt::Print(number(2.0)))),
    );
    assert_eq!(join(both.render()), "(if true (print 1) (print 2))");
    let one = Stmt::If(Expr::Literal(Literal::Boolean(true)), Box::new(Stmt::Print(number(1.0))), None);
    assert_eq!(join(one.render()), "(if true (print 1))");
    let repeat = Stmt::While(Expr::Var(name("go")), Box::new(Stmt::Block(vec![])));
    assert_eq!(join(repeat.render()), "(while (var go) (block ))");
    let function = Stmt::Function(
        name("add"),
        vec![name("a"), name("b")],
        vec![Stmt::Return(token(TokenType::Return, "return"), Some(Expr::Var(name("a"))))],
    );
    assert_eq!(join(function.render()), "(fun add (a b) (return (var a)))");
    let bare = Stmt::Return(token(TokenType::Return, "return"), None);
    assert_eq!(join(bare.render()), "(return)");
}
