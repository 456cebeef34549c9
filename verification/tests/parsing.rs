use lox::errors::{LoxError, LoxErrorType};
use lox::parser::Parser;
use lox::render::Piece;
use lox::scanner::{Scanned, Scanner};
use lox::stmt::Stmt;
use lox::token::{Token, TokenType};

fn scan(source: &str) -> Vec<Token> {
    let mut scanner = Scanner::new(source.to_string());
    loop {
        match scanner.scan_tokens() {
            Scanned::Number(text) => {
                let value: f64 = text.parse().unwrap();
                scanner.number(value.to_bits());
            }
            Scanned::Finished(Ok(result)) => return result.tokens,
            Scanned::Finished(Err(_)) => panic!("the source does not scan"),
        }
    }
}

fn parse(source: &str) -> Result<Vec<Stmt>, Vec<LoxError>> {
    Parser::new(scan(source)).parse()
}

fn join(pieces: Vec<Piece>) -> String {
    let mut line = String::new();
    for piece in pieces {
        match piece {
            Piece::Text(text) => line.push_str(&text),
            Piece::Number(bits) => line.push_str(&format!("{}", f64::from_bits(bits))),
        }
    }
    line
}

fn shapes(source: &str) -> Vec<String> {
    let program = parse(source).unwrap();
    program.iter().map(|statement| join(statement.render())).collect()
}

fn messages(source: &str) -> Vec<(String, usize, String)> {
    let errors = parse(source).unwrap_err();
    errors
        .iter()
        .map(|error| {
            let message = match &error.kind {
                LoxErrorType::SyntaxError(message) => message.clone(),
                _ => panic!("a parse error is a syntax error"),
            };
            (message, error.line, error.token.lexeme.clone())
        })
        .collect()
}

#[test]
fn an_empty_source_is_the_statement_nil() {
    assert_eq!(shapes(""), vec!["(nil)"]);
}

#[test]
fn factors_bind_tighter_than_terms() {
    assert_eq!(shapes("1 + 2 * 3;"), vec!["((+ 1 (* 2 3)))"]);
    assert_eq!(shapes("1 + (2 * 3);"), vec!["((+ 1 (group (* 2 3))))"]);
    assert_eq!(shapes("1 * 2 + 3;"), vec!["((+ (* 1 2) 3))"]);
}

#[test]
fn infix_operators_group_from_the_left() {
    assert_eq!(shapes("1 - 2 - 3;"), vec!["((- (- 1 2) 3))"]);
    assert_eq!(shapes("8 / 4 / 2;"), vec!["((/ (/ 8 4) 2))"]);
    assert_eq!(shapes("a or b or c;"), vec!["((or (or (var a) (var b)) (var c)))"]);
}

#[test]
fn every_level_in_its_place() {
    assert_eq!(
        shapes("a = b or c and d == e < f + g * -h;"),
        vec!["((assign a (or (var b) (and (var c) (== (var d) (< (var e) (+ (var f) (* (var g) (- (var h))))))))))"]
    );
    assert_eq!(shapes("1 <= 2 != 3 >= 4;"), vec!["((!= (<= 1 2) (>= 3 4)))"]);
}

#[test]
fn prefix_operators_and_assignment_group_from_the_right() {
    assert_eq!(shapes("!-!a;"), vec!["((! (- (! (var a)))))"]);
    assert_eq!(shapes("a = b = 3;"), vec!["((assign a (assign b 3)))"]);
}

#[test]
fn calls_apply_to_what_stands_before_them() {
    assert_eq!(shapes("f(1, 2)(3);"), vec!["((((var f) \"1 2\") \"3\"))"]);
    assert_eq!(shapes("f();"), vec!["(((var f) \"\"))"]);
}

#[test]
fn literals() {
    assert_eq!(
        shapes("true; false; nil; 12.5; \"text\";"),
        vec!["(true)", "(false)", "(nil)", "(12.5)", "(text)"]
    );
}

#[test]
fn statements() {
    assert_eq!(shapes("print 1;"), vec!["(print 1)"]);
    assert_eq!(shapes("var a; var b = 2;"), vec!["(defvar a nil)", "(defvar b 2)"]);
    assert_eq!(shapes("{ print 1; { } }"), vec!["(block (print 1) (block ))"]);
    assert_eq!(shapes("if (a) print 1;"), vec!["(if (var a) (print 1))"]);
    assert_eq!(shapes("if (a) print 1; else print 2;"), vec!["(if (var a) (print 1) (print 2))"]);
    assert_eq!(shapes("while (a) a = nil;"), vec!["(while (var a) ((assign a nil)))"]);
    assert_eq!(
        shapes("fun add(a, b) { return a + b; }"),
        vec!["(fun add (a b) (return (+ (var a) (var b))))"]
    );
    assert_eq!(shapes("fun f() { return; }"), vec!["(fun f () (return))"]);
}

#[test]
fn an_else_belongs_to_the_nearest_if() {
    assert_eq!(
        shapes("if (a) if (b) print 1; else print 2;"),
        vec!["(if (var a) (if (var b) (print 1) (print 2)))"]
    );
}

#[test]
fn a_for_loop_is_its_while_loop() {
    let desugared = shapes("for (var i = 0; i < 3; i = i + 1) print i;");
    let written = shapes("{ var i = 0; while (i < 3) { print i; i = i + 1; } }");
    assert_eq!(desugared, written);
    assert_eq!(
        desugared,
        vec!["(block (defvar i 0) (while (< (var i) 3) (block (print (var i)) ((assign i (+ (var i) 1))))))"]
    );
}

#[test]
fn the_clauses_of_a_for_loop_can_be_left_out() {
    assert_eq!(shapes("for (;;) print 1;"), vec!["(while true (print 1))"]);
    assert_eq!(shapes("for (; a;) print 1;"), vec!["(while (var a) (print 1))"]);
    assert_eq!(
        shapes("for (i = 0;; i = 1) print 1;"),
        vec!["(block ((assign i 0)) (while true (block (print 1) ((assign i 1)))))"]
    );
}

#[test]
fn an_error_names_the_token_at_which_it_arose() {
    assert_eq!(messages("print 1"), vec![("Expected semicolon".to_string(), 1, "".to_string())]);
    assert_eq!(messages(")"), vec![("Expected expression".to_string(), 1, ")".to_string())]);
    assert_eq!(
        messages("\n\nvar 1;"),
        vec![("Expected variable name.".to_string(), 3, "1".to_string())]
    );
    assert_eq!(
        messages("(1 + 2;"),
        vec![("Expected ')' after expression.".to_string(), 1, ";".to_string())]
    );
}

#[test]
fn only_a_variable_can_be_assigned_to() {
    assert_eq!(
        messages("1 + 2 = 3;"),
        vec![("Invalid assignment target.".to_string(), 1, "=".to_string())]
    );
    assert_eq!(
        messages("(a) = 3;"),
        vec![("Invalid assignment target.".to_string(), 1, "=".to_string())]
    );
}

#[test]
fn the_messages_of_the_statements() {
    let first = |source: &str| messages(source)[0].0.clone();
    assert_eq!(first("if a) print 1;"), "Expected '(' after 'if'.");
    assert_eq!(first("if (a print 1;"), "Expected ')' after if condition.");
    assert_eq!(first("while a) print 1;"), "Expected '(' after 'while'.");
    assert_eq!(first("while (a print 1;"), "Expected ')' after condition.");
    assert_eq!(first("for a;;) print 1;"), "Expected '(' after 'for'.");
    assert_eq!(first("for (;a b;) print 1;"), "Expected ';' after loop condition.");
    assert_eq!(first("for (;;a b) print 1;"), "Expected ')' after for clause.");
    assert_eq!(first("{ print 1;"), "Expected '}' after block.");
    assert_eq!(first("return 1"), "Expected ';' after return value.");
    assert_eq!(first("var a = 1"), "Expected ';' after variable declaration");
    assert_eq!(first("fun 1() {}"), "Expected function name.");
    assert_eq!(first("fun f {}"), "Expected '(' after function name.");
    assert_eq!(first("fun f(1) {}"), "Expected parameter name.");
    assert_eq!(first("fun f(a {}"), "Expected ')' after parameter list.");
    assert_eq!(first("fun f(a) print 1;"), "Expected '{' before function body.");
    assert_eq!(first("f(1;"), "Expected ')' after argument list.");
    assert_eq!(first("a;b c;"), "Expected semicolon");
}

#[test]
fn parsing_resumes_at_the_next_statement() {
    let errors = messages("var 1 = 2; print 3; print (; print 4;");
    assert_eq!(errors.len(), 2);
    assert_eq!(errors[0].0, "Expected variable name.");
    assert_eq!(errors[1].0, "Expected expression");
    assert_eq!(errors[1].2, ";");
}

#[test]
fn an_error_does_not_hide_the_statements_around_it() {
    // Without the malformed statement the program parses.
    assert_eq!(shapes("print 1; print 3;"), vec!["(print 1)", "(print 3)"]);
    assert_eq!(messages("print 1; print +; print 3;").len(), 1);
    // A keyword is a boundary even without a semicolon before it.
    assert_eq!(messages("print + print 1; var 2;").len(), 2);
}

#[test]
fn synchronize_stops_after_a_semicolon_or_before_a_keyword() {
    let mut parser = Parser::new(scan("a b c; d e print f;"));
    parser.synchronize();
    assert_eq!(parser.peek().lexeme, "d");
    parser.synchronize();
    assert_eq!(parser.peek().lexeme, "print");
    parser.synchronize();
    assert!(parser.is_at_end());
    parser.synchronize();
    assert!(parser.is_at_end());
}

#[test]
fn the_parser_reads_token_by_token() {
    let mut parser = Parser::new(scan("a + 1"));
    assert_eq!(parser.count(), 4);
    assert!(parser.check(&TokenType::Identifier("a".to_string())));
    assert!(!parser.match_token(&TokenType::Plus));
    parser.advance();
    assert_eq!(parser.previous().lexeme, "a");
    assert!(parser.match_token(&TokenType::Plus));
    assert_eq!(parser.peek().lexeme, "1");
    parser.advance();
    assert!(parser.is_at_end());
    assert!(!parser.check(&TokenType::EOF));
    parser.advance();
    assert!(parser.is_at_end());
    assert_eq!(parser.previous().lexeme, "1");
}

fn function_with(count: usize) -> String {
    let names: Vec<String> = (0..count).map(|i| format!("p{}", i)).collect();
    format!("fun f({}) {{ }}", names.join(", "))
}

#[test]
fn a_function_can_have_255_parameters() {
    let program = parse(&function_with(255)).unwrap();
    match &program[0] {
        Stmt::Function(_, params, _) => assert_eq!(params.len(), 255),
        _ => panic!("not a function"),
    }
    let errors = messages(&function_with(256));
    assert_eq!(errors[0].0, "A function cannot have more than 255 parameters.");
    assert_eq!(errors[0].2, "p255");
}

#[test]
fn a_call_can_have_254_arguments() {
    let arguments = |count: usize| {
        let values: Vec<String> = (0..count).map(|i| format!("{}", i)).collect();
        format!("f({});", values.join(", "))
    };
    assert!(parse(&arguments(254)).is_ok());
    let errors = messages(&arguments(255));
    assert_eq!(errors[0].0, "Function call cannot have more than 255 arguments.");
    assert_eq!(errors[0].2, "254");
}

#[test]
fn what_the_parser_accepts_is_well_formed() {
    let program = parse("fun f(a) { if (a < 1 or !a) return -a; } print f(2) == 3;").unwrap();
    for statement in &program {
        assert!(statement.is_well_formed());
    }
}

fn kinds(tokens: &Vec<Token>) -> Vec<TokenType> {
    tokens.iter().map(|token| token.token_type.clone()).collect()
}

fn comes_back(source: &str) {
    let program = parse(source).unwrap();
    let written = lox::canonical::write::write_program(&program);
    let again = Parser::new(written.clone()).parse().unwrap();
    let first: Vec<String> = program.iter().map(|statement| join(statement.render())).collect();
    let second: Vec<String> = again.iter().map(|statement| join(statement.render())).collect();
    assert_eq!(first, second);
    assert_eq!(kinds(&written), kinds(&lox::canonical::write::write_program(&again)));
}

#[test]
fn a_program_comes_back_from_its_canonical_form() {
    comes_back("1 + 2 * 3 - -4 / (5 - 6);");
    comes_back("a = b = c or d and e == f != g < h <= i > j >= k;");
    comes_back("print \"text\"; print nil; print true; print false; print 12.5;");
    comes_back("var a; var b = f(1, g(2, 3))(4)();");
    comes_back("fun f() { } fun g(a) { return; } fun h(a, b, c) { return a + b + c; }");
    comes_back("{ var a = 1; { print a; } { } }");
    comes_back("while (a < 10) a = a + 1;");
    comes_back("for (var i = 0; i < 3; i = i + 1) print i;");
    comes_back("for (;;) { }");
    comes_back("!(a or b) == !a and !b;");
    comes_back("");
}

#[test]
fn an_else_stays_with_its_if() {
    comes_back("if (a) if (b) print 1; else print 2;");
    comes_back("if (a) { if (b) print 1; } else print 2;");
    comes_back("if (a) while (b) if (c) print 1; else print 2;");
    comes_back("if (a) if (b) print 1; else print 2; else print 3;");
    comes_back("if (a) print 1; else if (b) print 2; else print 3;");
    assert_ne!(
        shapes("if (a) if (b) print 1; else print 2;"),
        shapes("if (a) { if (b) print 1; } else print 2;")
    );
}

#[test]
fn the_canonical_form_of_a_for_loop_is_its_while_loop() {
    let program = parse("for (var i = 0; i < 3; i = i + 1) print i;").unwrap();
    let written = lox::canonical::write::write_program(&program);
    assert_eq!(kinds(&written), kinds(&scan("{ var i = 0; while (i < 3) { print i; i = i + 1; } }")));
}
