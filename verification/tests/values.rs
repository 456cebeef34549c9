use lox::literal::Literal;

#[test]
fn zero_and_the_empty_string_are_truthy() {
    assert!(Literal::Number(0f64.to_bits()).is_truthy());
    assert!(Literal::String(String::new()).is_truthy());
    assert!(!Literal::Nil.is_truthy());
    assert!(!Literal::Boolean(false).is_truthy());
    assert!(Literal::Boolean(true).is_truthy());
}
