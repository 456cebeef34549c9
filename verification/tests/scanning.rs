use lox::scanner::{is_alpha, is_alphanumeric, is_digit, ScanResult, Scanned, Scanner};
use lox::token::{Token, TokenType};

fn scan(source: &str) -> Result<ScanResult, ScanResult> {
    let mut scanner = Scanner::new(source.to_string());
    loop {
        match scanner.scan_tokens() {
            Scanned::Number(text) => {
                let value: f64 = text.parse().unwrap();
                scanner.number(value.to_bits());
            }
            Scanned::Finished(result) => return result,
        }
    }
}

fn kinds(tokens: &Vec<Token>) -> Vec<TokenType> {
    tokens.iter().map(|token| token.token_type.clone()).collect()
}

fn number(value: f64) -> TokenType {
    TokenType::Number(value.to_bits())
}

#[test]
fn an_empty_source_is_the_end_marker_alone() {
    let result = scan("").unwrap();
    assert_eq!(kinds(&result.tokens), vec![TokenType::EOF]);
    assert_eq!(result.tokens[0].line, 1);
    assert_eq!(result.tokens[0].lexeme, "");
}

#[test]
fn punctuation_and_operators() {
    let result = scan("(){},.-+;*/ ! != = == < <= > >=").unwrap();
    assert_eq!(
        kinds(&result.tokens),
        vec![
            TokenType::LeftParen,
            TokenType::RightParen,
            TokenType::LeftBrace,
            TokenType::RightBrace,
            TokenType::Comma,
            TokenType::Dot,
            TokenType::Minus,
            TokenType::Plus,
            TokenType::Semicolon,
            TokenType::Star,
            TokenType::Slash,
            TokenType::Bang,
            TokenType::BangEqual,
            TokenType::Equal,
            TokenType::EqualEqual,
            TokenType::Less,
            TokenType::LessEqual,
            TokenType::Greater,
            TokenType::GreaterEqual,
            TokenType::EOF,
        ]
    );
}

#[test]
fn keywords_and_identifiers() {
    let result =
        scan("and class else false for fun if nil or print return super this true var while andy _x1")
            .unwrap();
    assert_eq!(
        kinds(&result.tokens),
        vec![
            TokenType::And,
            TokenType::Class,
            TokenType::Else,
            TokenType::False,
            TokenType::For,
            TokenType::Fun,
            TokenType::If,
            TokenType::Nil,
            TokenType::Or,
            TokenType::Print,
            TokenType::Return,
            TokenType::Super,
            TokenType::This,
            TokenType::True,
            TokenType::Var,
            TokenType::While,
            TokenType::Identifier("andy".to_string()),
            TokenType::Identifier("_x1".to_string()),
            TokenType::EOF,
        ]
    );
    assert_eq!(result.tokens[16].lexeme, "andy");
}

#[test]
fn match_keyword_tells_words_apart() {
    assert_eq!(Token::match_keyword("while"), TokenType::While);
    assert_eq!(Token::match_keyword("whil"), TokenType::Identifier("whil".to_string()));
    assert_eq!(Token::match_keyword("nil"), TokenType::Nil);
}

#[test]
fn numbers_stop_the_scanner_and_take_their_bits() {
    let mut scanner = Scanner::new("12.5 + 3".to_string());
    match scanner.scan_tokens() {
        Scanned::Number(text) => assert_eq!(text, "12.5"),
        Scanned::Finished(_) => panic!("the scanner went past a number"),
    }
    // Asking again changes nothing.
    match scanner.scan_tokens() {
        Scanned::Number(text) => assert_eq!(text, "12.5"),
        Scanned::Finished(_) => panic!("the scanner went past a number"),
    }
    scanner.number(12.5f64.to_bits());
    match scanner.scan_tokens() {
        Scanned::Number(text) => assert_eq!(text, "3"),
        Scanned::Finished(_) => panic!("the scanner went past a number"),
    }
    scanner.number(3f64.to_bits());
    match scanner.scan_tokens() {
        Scanned::Finished(Ok(result)) => {
            assert_eq!(
                kinds(&result.tokens),
                vec![number(12.5), TokenType::Plus, number(3.0), TokenType::EOF]
            );
            assert_eq!(result.tokens[0].lexeme, "12.5");
        }
        _ => panic!("the scanner did not finish"),
    }
    // The end marker is written once.
    match scanner.scan_tokens() {
        Scanned::Finished(Ok(result)) => assert_eq!(result.tokens.len(), 4),
        _ => panic!("the scanner did not stay finished"),
    }
}

#[test]
fn a_number_without_a_pending_literal_is_ignored() {
    let mut scanner = Scanner::new("x".to_string());
    scanner.number(1f64.to_bits());
    match scanner.scan_tokens() {
        Scanned::Finished(Ok(result)) => assert_eq!(
            kinds(&result.tokens),
            vec![TokenType::Identifier("x".to_string()), TokenType::EOF]
        ),
        _ => panic!("the scanner did not finish"),
    }
}

#[test]
fn a_dot_needs_a_digit_after_it_to_belong_to_a_number() {
    let result = scan("1. 2.x 3.25").unwrap();
    assert_eq!(
        kinds(&result.tokens),
        vec![
            number(1.0),
            TokenType::Dot,
            number(2.0),
            TokenType::Dot,
            TokenType::Identifier("x".to_string()),
            number(3.25),
            TokenType::EOF,
        ]
    );
}

#[test]
fn strings_carry_their_content_and_count_lines() {
    let result = scan("\"one\ntwo\" x").unwrap();
    assert_eq!(
        kinds(&result.tokens),
        vec![
            TokenType::String("one\ntwo".to_string()),
            TokenType::Identifier("x".to_string()),
            TokenType::EOF,
        ]
    );
    assert_eq!(result.tokens[0].lexeme, "\"one\ntwo\"");
    assert_eq!(result.tokens[0].line, 2);
    assert_eq!(result.tokens[1].line, 2);
}

#[test]
fn comments_run_to_the_end_of_the_line() {
    let result = scan("a // b c\nd").unwrap();
    assert_eq!(
        kinds(&result.tokens),
        vec![
            TokenType::Identifier("a".to_string()),
            TokenType::Identifier("d".to_string()),
            TokenType::EOF,
        ]
    );
    assert_eq!(result.tokens[1].line, 2);
}

#[test]
fn an_unterminated_string_is_an_error() {
    let result = scan("\"abc").unwrap_err();
    assert_eq!(result.errors.len(), 1);
    assert_eq!(result.errors[0].message, "Unterminated string literal");
    assert_eq!(result.errors[0].lexeme, None);
    assert_eq!(kinds(&result.tokens), vec![TokenType::EOF]);
}

#[test]
fn a_stray_character_is_an_error_and_scanning_goes_on() {
    let result = scan("a @ b\n#").unwrap_err();
    assert_eq!(result.errors.len(), 2);
    assert_eq!(result.errors[0].message, "Unexpected character.");
    assert_eq!(result.errors[0].lexeme, Some("@".to_string()));
    assert_eq!(result.errors[0].line, 1);
    assert_eq!(result.errors[1].lexeme, Some("#".to_string()));
    assert_eq!(result.errors[1].line, 2);
    assert_eq!(
        kinds(&result.tokens),
        vec![
            TokenType::Identifier("a".to_string()),
            TokenType::Identifier("b".to_string()),
            TokenType::EOF,
        ]
    );
}

#[test]
fn character_classes() {
    assert!(is_digit(&'0') && is_digit(&'9') && !is_digit(&'a') && !is_digit(&'/'));
    assert!(is_alpha(&'a') && is_alpha(&'Z') && is_alpha(&'_') && !is_alpha(&'1'));
    assert!(!is_alpha(&'é'));
    assert!(is_alphanumeric(&'7') && is_alphanumeric(&'q') && !is_alphanumeric(&'-'));
}

#[test]
fn the_peeks_look_ahead_without_moving() {
    let scanner = Scanner::new("ab".to_string());
    assert_eq!(scanner.peek(), Some('a'));
    assert_eq!(scanner.peek_next(), Some('b'));
    assert!(!scanner.is_at_end());
    let empty = Scanner::new(String::new());
    assert_eq!(empty.peek(), None);
    assert_eq!(empty.peek_next(), None);
    assert!(empty.is_at_end());
}
