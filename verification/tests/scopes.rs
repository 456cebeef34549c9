use lox::environment::Environment;
use lox::literal::Literal;
use lox::number;
use lox::resolver::Resolver;
use lox::stmt::Stmt;

fn n(value: f64) -> Literal {
    Literal::Number(value.to_bits())
}

#[test]
fn a_new_arena_holds_the_empty_global_scope() {
    let environment = Environment::new();
    assert_eq!(environment.len(), 1);
    assert_eq!(environment.fetch(0, "a"), None);
}

#[test]
fn define_then_fetch() {
    let mut environment = Environment::new();
    environment.define(0, "a", n(1.0));
    assert_eq!(environment.fetch(0, "a"), Some(n(1.0)));
    environment.define(0, "a", n(2.0));
    assert_eq!(environment.fetch(0, "a"), Some(n(2.0)));
    assert_eq!(environment.fetch(0, "b"), None);
}

#[test]
fn an_inner_scope_sees_outwards() {
    let mut environment = Environment::new();
    environment.define(0, "a", n(1.0));
    let inner = environment.enclose(0);
    let innermost = environment.enclose(inner);
    assert_eq!((inner, innermost), (1, 2));
    assert_eq!(environment.fetch(innermost, "a"), Some(n(1.0)));
    assert_eq!(environment.find(innermost, "a"), Some(0));
    environment.define(inner, "a", n(2.0));
    assert_eq!(environment.fetch(innermost, "a"), Some(n(2.0)));
    assert_eq!(environment.fetch(inner, "a"), Some(n(2.0)));
    assert_eq!(environment.fetch(0, "a"), Some(n(1.0)));
    environment.define(innermost, "b", n(3.0));
    assert_eq!(environment.fetch(inner, "b"), None);
}

#[test]
fn sibling_scopes_do_not_see_each_other() {
    let mut environment = Environment::new();
    let left = environment.enclose(0);
    let right = environment.enclose(0);
    environment.define(left, "a", n(1.0));
    assert_eq!(environment.fetch(right, "a"), None);
    assert_eq!(environment.fetch(left, "a"), Some(n(1.0)));
}

#[test]
fn assign_overwrites_the_nearest_binding() {
    let mut environment = Environment::new();
    environment.define(0, "a", n(1.0));
    let inner = environment.enclose(0);
    assert!(environment.assign(inner, "a", n(5.0)));
    assert_eq!(environment.fetch(0, "a"), Some(n(5.0)));
    environment.define(inner, "a", n(6.0));
    assert!(environment.assign(inner, "a", n(7.0)));
    assert_eq!(environment.fetch(inner, "a"), Some(n(7.0)));
    assert_eq!(environment.fetch(0, "a"), Some(n(5.0)));
}

#[test]
fn assign_creates_no_binding() {
    let mut environment = Environment::new();
    let inner = environment.enclose(0);
    assert!(!environment.assign(inner, "a", n(1.0)));
    assert_eq!(environment.fetch(inner, "a"), None);
    assert_eq!(environment.fetch(0, "a"), None);
}

#[test]
fn a_scope_that_does_not_exist_binds_nothing() {
    let mut environment = Environment::new();
    environment.define(0, "a", n(1.0));
    assert_eq!(environment.fetch(7, "a"), None);
    assert!(!environment.assign(7, "a", n(2.0)));
    assert_eq!(environment.find(7, "a"), None);
}

#[test]
fn order_agrees_with_the_doubles() {
    let samples = [
        0.0,
        -0.0,
        1.0,
        -1.0,
        0.5,
        -2.5,
        1e300,
        -1e300,
        5e-324,
        -5e-324,
        f64::MAX,
        f64::MIN,
        f64::MIN_POSITIVE,
        f64::INFINITY,
        f64::NEG_INFINITY,
        f64::NAN,
        -f64::NAN,
    ];
    for a in samples {
        assert_eq!(number::check_nan(a.to_bits()), a.is_nan());
        assert_eq!(number::negate(a.to_bits()), (-a).to_bits());
        for b in samples {
            assert_eq!(number::check_less(a.to_bits(), b.to_bits()), a < b, "{} < {}", a, b);
            assert_eq!(number::check_equal(a.to_bits(), b.to_bits()), a == b, "{} == {}", a, b);
        }
    }
}

#[test]
fn the_named_bit_patterns() {
    assert_eq!(number::SIGN, (-0.0f64).to_bits());
    assert_eq!(number::INFINITY, f64::INFINITY.to_bits());
}

#[test]
fn the_resolver_opens_and_closes_scopes() {
    let mut resolver = Resolver::new();
    resolver.begin_scope();
    resolver.begin_scope();
    resolver.end_scope();
    resolver.visit_statement(Stmt::Block(Vec::new()));
    resolver.end_scope();
    resolver.end_scope();
}
