use lox::errors::{DetailedErrorType, LoxError, LoxErrorType};
use lox::expr::Expr;
use lox::function::Function;
use lox::interpreter::{Interpreter, Signal};
use lox::literal::Literal;
use lox::machine::Arithmetic;
use lox::parser::Parser;
use lox::render::Piece;
use lox::scanner::{Scanned, Scanner};
use lox::stmt::Stmt;
use lox::token::{Token, TokenType};

fn scan(source: &str) -> Vec<Token> {
    let mut scanner = Scanner::new(source.to_string());
    loop {
        match scanner.scan_tokens() {
            Scanned::Number(text) => {
                let value: f64 = text.parse().unwrap();
                scanner.number(value.to_bits());
            }
            Scanned::Finished(Ok(result)) => return result.tokens,
            Scanned::Finished(Err(_)) => panic!("the source does not scan"),
        }
    }
}

fn parse(source: &str) -> Vec<Stmt> {
    match Parser::new(scan(source)).parse() {
        Ok(program) => program,
        Err(errors) => panic!("the source does not parse: {:?}", errors),
    }
}

fn show(value: &Literal) -> String {
    match value.display() {
        Piece::Text(text) => text,
        Piece::Number(bits) => format!("{}", f64::from_bits(bits)),
    }
}

fn number(value: f64) -> Literal {
    Literal::Number(value.to_bits())
}

/// Runs what the interpreter has begun, playing the host.
fn drive(interpreter: &mut Interpreter, output: &mut Vec<String>) -> Result<Literal, LoxError> {
    loop {
        match interpreter.run(64) {
            Signal::Continue => {}
            Signal::Waiting => panic!("the interpreter waits for an answer it was given"),
            Signal::Print(value) => output.push(show(&value)),
            Signal::Arithmetic(operation, left, right) => {
                let (a, b) = (f64::from_bits(left), f64::from_bits(right));
                let result = match operation {
                    Arithmetic::Add => a + b,
                    Arithmetic::Subtract => a - b,
                    Arithmetic::Multiply => a * b,
                    Arithmetic::Divide => a / b,
                };
                assert!(interpreter.resume(number(result)));
            }
            Signal::Native(name, arguments) => {
                assert_eq!(name, "clock");
                assert!(arguments.is_empty());
                assert!(interpreter.resume(number(1234.5)));
            }
            Signal::Done(result) => return result,
        }
    }
}

/// Runs a program statement by statement. Gives the output, and the result
/// of the last statement or the first error.
fn run_in(interpreter: &mut Interpreter, source: &str) -> (Vec<String>, Result<Literal, LoxError>) {
    let mut output = Vec::new();
    let mut last = Ok(Literal::Nil);
    for statement in parse(source) {
        assert!(statement.is_well_formed());
        interpreter.execute(&statement);
        last = drive(interpreter, &mut output);
        if last.is_err() {
            break;
        }
    }
    (output, last)
}

fn run(source: &str) -> (Vec<String>, Result<Literal, LoxError>) {
    run_in(&mut Interpreter::new(), source)
}

fn output(source: &str) -> Vec<String> {
    let (output, result) = run(source);
    assert!(result.is_ok(), "the program fails: {:?}", result);
    output
}

fn value(source: &str) -> Literal {
    run(source).1.unwrap()
}

fn failure(source: &str) -> (DetailedErrorType, String, usize) {
    let error = run(source).1.unwrap_err();
    match error.kind {
        LoxErrorType::RuntimeError(detail) => (detail, error.token.lexeme, error.line),
        _ => panic!("not a runtime error"),
    }
}

#[test]
fn arithmetic_follows_precedence() {
    assert_eq!(value("1 + 2 * 3;"), number(7.0));
    assert_eq!(value("1 + (2 * 3);"), number(7.0));
    assert_eq!(value("(1 + 2) * 3;"), number(9.0));
}

#[test]
fn subtraction_groups_from_the_left() {
    assert_eq!(value("1 - 2 - 3;"), number(-4.0));
    assert_eq!(value("8 / 4 / 2;"), number(1.0));
}

#[test]
fn division_by_zero_is_no_error() {
    assert_eq!(value("1 / 0;"), number(f64::INFINITY));
    assert_eq!(value("-1 / 0;"), number(f64::NEG_INFINITY));
    match value("0 / 0;") {
        Literal::Number(bits) => assert!(f64::from_bits(bits).is_nan()),
        _ => panic!("not a number"),
    }
    assert_eq!(value("0 / 0 == 0 / 0;"), Literal::Boolean(false));
}

#[test]
fn plus_joins_two_strings() {
    assert_eq!(value("\"ab\" + \"cd\";"), Literal::String("abcd".to_string()));
    assert_eq!(value("\"\" + \"\";"), Literal::String(String::new()));
}

#[test]
fn arithmetic_needs_numbers() {
    assert_eq!(failure("1 + \"a\";"), (DetailedErrorType::ExpectedNumber, "+".to_string(), 1));
    assert_eq!(failure("\"a\" + 1;").0, DetailedErrorType::ExpectedNumber);
    assert_eq!(failure("\"a\" - \"b\";"), (DetailedErrorType::ExpectedNumber, "-".to_string(), 1));
    assert_eq!(failure("nil * 2;").0, DetailedErrorType::ExpectedNumber);
    assert_eq!(failure("\n2 / true;"), (DetailedErrorType::ExpectedNumber, "/".to_string(), 2));
    assert_eq!(failure("-\"a\";"), (DetailedErrorType::ExpectedNumber, "-".to_string(), 1));
    assert_eq!(failure("1 < \"a\";"), (DetailedErrorType::ExpectedNumber, "<".to_string(), 1));
    assert_eq!(failure("\"a\" >= \"b\";").0, DetailedErrorType::ExpectedNumber);
}

#[test]
fn comparison_of_numbers() {
    assert_eq!(value("1 < 2;"), Literal::Boolean(true));
    assert_eq!(value("2 < 1;"), Literal::Boolean(false));
    assert_eq!(value("2 <= 2;"), Literal::Boolean(true));
    assert_eq!(value("3 > 2;"), Literal::Boolean(true));
    assert_eq!(value("2 >= 3;"), Literal::Boolean(false));
    assert_eq!(value("-1 < 0;"), Literal::Boolean(true));
    assert_eq!(value("-2 < -1;"), Literal::Boolean(true));
    assert_eq!(value("0 <= -0;"), Literal::Boolean(true));
    assert_eq!(value("0 / 0 <= 0 / 0;"), Literal::Boolean(false));
}

#[test]
fn equality_takes_any_two_values() {
    assert_eq!(value("1 == 1;"), Literal::Boolean(true));
    assert_eq!(value("1 != 1;"), Literal::Boolean(false));
    assert_eq!(value("0 == -0;"), Literal::Boolean(true));
    assert_eq!(value("\"a\" == \"a\";"), Literal::Boolean(true));
    assert_eq!(value("\"a\" == \"b\";"), Literal::Boolean(false));
    assert_eq!(value("nil == nil;"), Literal::Boolean(true));
    assert_eq!(value("nil == false;"), Literal::Boolean(false));
    assert_eq!(value("1 == \"1\";"), Literal::Boolean(false));
    assert_eq!(value("1 != \"1\";"), Literal::Boolean(true));
    assert_eq!(value("true == true;"), Literal::Boolean(true));
}

#[test]
fn a_function_equals_nothing() {
    assert_eq!(value("clock == clock;"), Literal::Boolean(false));
    assert_eq!(value("fun f() {} f == f;"), Literal::Boolean(false));
    assert_eq!(value("fun f() {} f != f;"), Literal::Boolean(true));
}

#[test]
fn negation() {
    assert_eq!(value("-3;"), number(-3.0));
    assert_eq!(value("--3;"), number(3.0));
    assert_eq!(value("!true;"), Literal::Boolean(false));
    assert_eq!(value("!nil;"), Literal::Boolean(true));
    assert_eq!(value("!0;"), Literal::Boolean(false));
    assert_eq!(value("!\"\";"), Literal::Boolean(false));
}

#[test]
fn zero_and_the_empty_string_count_as_true() {
    assert_eq!(output("if (0) print \"a\"; else print \"b\";"), vec!["a"]);
    assert_eq!(output("if (\"\") print \"yes\"; else print \"no\";"), vec!["yes"]);
    assert_eq!(output("if (nil) print \"yes\"; else print \"no\";"), vec!["no"]);
    assert_eq!(output("if (false) print \"yes\";"), Vec::<String>::new());
}

#[test]
fn and_and_or_give_the_operand_that_decided() {
    assert_eq!(value("nil or \"x\";"), Literal::String("x".to_string()));
    assert_eq!(value("1 or 2;"), number(1.0));
    assert_eq!(value("nil and 2;"), Literal::Nil);
    assert_eq!(value("1 and 2;"), number(2.0));
    assert_eq!(value("false or nil;"), Literal::Nil);
    assert_eq!(value("0 and \"\";"), Literal::String(String::new()));
}

#[test]
fn and_and_or_skip_the_operand_that_cannot_matter() {
    assert_eq!(output("var a = 1; true or (a = 2); print a;"), vec!["1"]);
    assert_eq!(output("var a = 1; false and (a = 2); print a;"), vec!["1"]);
    assert_eq!(output("var a = 1; false or (a = 2); print a;"), vec!["2"]);
    assert_eq!(output("var a = 1; true and (a = 2); print a;"), vec!["2"]);
}

#[test]
fn printing() {
    assert_eq!(
        output("print 1; print 2.5; print \"text\"; print true; print nil; print clock;"),
        vec!["1", "2.5", "text", "true", "nil", "<native fn>"]
    );
    assert_eq!(output("fun f() {} print f;"), vec!["<native fn>"]);
}

#[test]
fn what_a_statement_gives() {
    assert_eq!(value("print 1;"), Literal::Nil);
    assert_eq!(value("var a = 1;"), Literal::Nil);
    assert_eq!(value("{ 1; }"), Literal::Nil);
    assert_eq!(value("while (false) 1;"), Literal::Nil);
    assert_eq!(value("if (false) 1;"), Literal::Nil);
    assert_eq!(value("if (true) 1;"), number(1.0));
    assert_eq!(value("fun f() {}"), Literal::Nil);
    assert_eq!(value("2;"), number(2.0));
    assert_eq!(value(""), Literal::Nil);
}

#[test]
fn variables() {
    assert_eq!(output("var a; print a; a = 2; print a; var a = 3; print a;"), vec!["nil", "2", "3"]);
    assert_eq!(value("var a = 1; a = a + 1;"), number(2.0));
    assert_eq!(output("var a; var b; a = b = 5; print a; print b;"), vec!["5", "5"]);
}

#[test]
fn an_inner_variable_shadows_the_outer_one() {
    assert_eq!(output("var a = 1; { var a = 2; print a; } print a;"), vec!["2", "1"]);
}

#[test]
fn an_inner_scope_assigns_to_the_outer_variable() {
    assert_eq!(output("var a = 1; { a = 2; { a = a + 1; } } print a;"), vec!["3"]);
}

#[test]
fn an_unbound_name_is_an_error() {
    assert_eq!(failure("print a;"), (DetailedErrorType::UndeclaredIdentifier, "a".to_string(), 1));
    assert_eq!(failure("\na = 1;"), (DetailedErrorType::UndeclaredIdentifier, "a".to_string(), 2));
    assert_eq!(failure("{ var a = 1; } a;").0, DetailedErrorType::UndeclaredIdentifier);
}

#[test]
fn a_failed_assignment_binds_nothing() {
    let mut interpreter = Interpreter::new();
    assert!(run_in(&mut interpreter, "a = 1;").1.is_err());
    assert!(run_in(&mut interpreter, "a;").1.is_err());
}

#[test]
fn loops() {
    assert_eq!(output("var i = 0; while (i < 3) { print i; i = i + 1; }"), vec!["0", "1", "2"]);
    assert_eq!(output("for (var i = 0; i < 3; i = i + 1) print i;"), vec!["0", "1", "2"]);
    assert_eq!(output("var i = 5; for (; i > 3;) i = i - 1; print i;"), vec!["3"]);
}

#[test]
fn a_for_loop_does_what_its_while_loop_does() {
    let with_for = "var sum = 0; for (var i = 1; i <= 10; i = i + 1) { sum = sum + i; print sum; }";
    let with_while =
        "var sum = 0; { var i = 1; while (i <= 10) { { sum = sum + i; print sum; } i = i + 1; } }";
    assert_eq!(output(with_for), output(with_while));
    assert_eq!(output(with_for).last().unwrap(), "55");
}

#[test]
fn the_variable_of_a_for_loop_ends_with_it() {
    assert_eq!(
        failure("for (var i = 0; i < 1; i = i + 1) {} print i;").0,
        DetailedErrorType::UndeclaredIdentifier
    );
}

#[test]
fn functions() {
    assert_eq!(output("fun add(a, b) { return a + b; } print add(1, 2);"), vec!["3"]);
    assert_eq!(output("fun f() { print 1; } print f();"), vec!["1", "nil"]);
    assert_eq!(output("fun f() { return; print 1; } print f();"), vec!["nil"]);
    assert_eq!(
        output("fun f(a) { if (a) { while (true) { return \"deep\"; } } return \"flat\"; } print f(1); print f(nil);"),
        vec!["deep", "flat"]
    );
}

#[test]
fn arguments_are_evaluated_from_the_left() {
    assert_eq!(
        output("fun show(a) { print a; return a; } fun f(a, b, c) {} f(show(1), show(2), show(3));"),
        vec!["1", "2", "3"]
    );
}

#[test]
fn a_return_leaves_the_values_of_the_caller_alone() {
    assert_eq!(value("fun two() { return 2; } 1 + two() * 3;"), number(7.0));
    assert_eq!(value("fun id(a) { { { return a; } } } id(1) - id(2) - id(3);"), number(-4.0));
}

#[test]
fn recursion() {
    assert_eq!(
        output("fun fib(n) { if (n < 2) return n; return fib(n - 1) + fib(n - 2); } print fib(12);"),
        vec!["144"]
    );
}

#[test]
fn a_closure_keeps_the_scope_of_its_declaration() {
    let source = "fun counter() { var n = 0; fun next() { n = n + 1; return n; } return next; } \
                  var a = counter(); var b = counter(); \
                  print a(); print a(); print b(); print a();";
    assert_eq!(output(source), vec!["1", "2", "1", "3"]);
}

#[test]
fn a_function_sees_its_own_scope_not_the_scope_of_its_caller() {
    let source = "var x = \"global\"; fun show() { print x; } \
                  fun caller() { var x = \"local\"; show(); } caller(); \
                  { var x = \"block\"; show(); }";
    assert_eq!(output(source), vec!["global", "global"]);
}

#[test]
fn a_closure_sees_later_changes_of_what_it_captured() {
    let source = "var f; { var a = 1; fun get() { return a; } f = get; a = 2; } print f();";
    assert_eq!(output(source), vec!["2"]);
}

#[test]
fn the_wrong_number_of_arguments_is_an_error() {
    assert_eq!(
        failure("fun f(a, b) {} f(1);"),
        (DetailedErrorType::InvalidArity, ")".to_string(), 1)
    );
    assert_eq!(failure("fun f() {} f(1);").0, DetailedErrorType::InvalidArity);
    assert_eq!(failure("clock(1);").0, DetailedErrorType::InvalidArity);
}

#[test]
fn only_a_function_can_be_called() {
    assert_eq!(failure("1();"), (DetailedErrorType::NotCallable, ")".to_string(), 1));
    assert_eq!(failure("\"f\"(1, 2);").0, DetailedErrorType::NotCallable);
    assert_eq!(failure("nil();").0, DetailedErrorType::NotCallable);
}

#[test]
fn the_host_answers_for_its_functions() {
    assert_eq!(value("clock();"), number(1234.5));
    assert_eq!(value("clock() + 0.5;"), number(1235.0));
}

#[test]
fn a_return_outside_a_function_ends_the_statement() {
    assert_eq!(value("return 3;"), number(3.0));
    assert_eq!(output("{ print 1; return 2; print 3; } print 4;"), vec!["1", "4"]);
}

#[test]
fn an_error_leaves_the_global_scope_current() {
    let mut interpreter = Interpreter::new();
    let (_, result) = run_in(&mut interpreter, "var a = 1; { var a = 2; { var b = a + nil; } }");
    assert!(result.is_err());
    let (output, result) = run_in(&mut interpreter, "print a; var c = 3; print c;");
    assert!(result.is_ok());
    assert_eq!(output, vec!["1", "3"]);
}

#[test]
fn the_globals_last_from_run_to_run() {
    let mut interpreter = Interpreter::new();
    run_in(&mut interpreter, "var a = 1; fun next() { a = a + 1; return a; }").1.unwrap();
    assert_eq!(run_in(&mut interpreter, "next();").1.unwrap(), number(2.0));
    assert_eq!(run_in(&mut interpreter, "next();").1.unwrap(), number(3.0));
}

#[test]
fn evaluate_runs_one_expression() {
    let mut interpreter = Interpreter::new();
    let expr = Expr::Binary(
        Box::new(Expr::Literal(number(2.0))),
        Token::new(TokenType::Star, "*".to_string(), 1),
        Box::new(Expr::Literal(number(21.0))),
    );
    assert!(expr.is_well_formed());
    interpreter.evaluate(&expr);
    assert_eq!(drive(&mut interpreter, &mut Vec::new()).unwrap(), number(42.0));
}

#[test]
fn the_interpreter_waits_until_it_is_answered() {
    let mut interpreter = Interpreter::new();
    assert!(!interpreter.is_waiting());
    assert!(!interpreter.resume(Literal::Nil));
    let program = parse("1 + 2;");
    interpreter.execute(&program[0]);
    let signal = loop {
        match interpreter.step() {
            Signal::Continue => {}
            other => break other,
        }
    };
    match signal {
        Signal::Arithmetic(Arithmetic::Add, left, right) => {
            assert_eq!(f64::from_bits(left), 1.0);
            assert_eq!(f64::from_bits(right), 2.0);
        }
        other => panic!("not a request for a sum: {:?}", other),
    }
    assert!(interpreter.is_waiting());
    assert!(matches!(interpreter.step(), Signal::Waiting));
    assert!(matches!(interpreter.run(10), Signal::Waiting));
    assert!(interpreter.resume(number(3.0)));
    assert!(!interpreter.is_waiting());
    assert_eq!(drive(&mut interpreter, &mut Vec::new()).unwrap(), number(3.0));
}

#[test]
fn the_four_operations_are_asked_of_the_host() {
    let asked = |source: &str| {
        let mut interpreter = Interpreter::new();
        let program = parse(source);
        interpreter.execute(&program[0]);
        loop {
            match interpreter.run(100) {
                Signal::Continue => {}
                Signal::Arithmetic(operation, _, _) => return operation,
                other => panic!("not a request: {:?}", other),
            }
        }
    };
    assert_eq!(asked("1 + 2;"), Arithmetic::Add);
    assert_eq!(asked("1 - 2;"), Arithmetic::Subtract);
    assert_eq!(asked("1 * 2;"), Arithmetic::Multiply);
    assert_eq!(asked("1 / 2;"), Arithmetic::Divide);
}

#[test]
fn a_run_stops_when_its_budget_is_spent() {
    let mut interpreter = Interpreter::new();
    let program = parse("while (true) {}");
    interpreter.execute(&program[0]);
    for _ in 0..10 {
        assert!(matches!(interpreter.run(1000), Signal::Continue));
    }
    assert!(matches!(interpreter.run(0), Signal::Continue));
    // A new run drops what the old one left.
    let program = parse("7;");
    interpreter.execute(&program[0]);
    assert_eq!(drive(&mut interpreter, &mut Vec::new()).unwrap(), number(7.0));
}

#[test]
fn an_idle_interpreter_is_done_with_nil() {
    let mut interpreter = Interpreter::new();
    match interpreter.step() {
        Signal::Done(Ok(value)) => assert_eq!(value, Literal::Nil),
        other => panic!("not done: {:?}", other),
    }
}

#[test]
fn a_function_whose_scope_does_not_exist_cannot_be_called() {
    let stray = Function::Lox {
        arity: 0,
        params: Box::new(Vec::new()),
        body: Box::new(Vec::new()),
        closure: 99,
    };
    let call = Expr::Call(
        Box::new(Expr::Literal(Literal::Function(stray))),
        Token::new(TokenType::RightParen, ")".to_string(), 4),
        Vec::new(),
    );
    assert!(call.is_well_formed());
    let mut interpreter = Interpreter::new();
    interpreter.evaluate(&call);
    let error = drive(&mut interpreter, &mut Vec::new()).unwrap_err();
    assert!(matches!(error.kind, LoxErrorType::RuntimeError(DetailedErrorType::NotCallable)));
    assert_eq!(error.line, 4);
}

#[test]
fn call_schedules_the_body_of_a_function() {
    let mut interpreter = Interpreter::new();
    let program = parse("fun double(a) { return a + a; }");
    let function = match &program[0] {
        Stmt::Function(_, params, body) => Function::Lox {
            arity: params.len(),
            params: Box::new(params.clone()),
            body: Box::new(body.clone()),
            closure: 0,
        },
        _ => panic!("not a function"),
    };
    assert!(function.is_well_formed());
    assert_eq!(function.arity(), 1);
    let signal = function.call(&mut interpreter, &vec![number(4.0)]);
    assert!(matches!(signal, Signal::Continue));
    assert_eq!(drive(&mut interpreter, &mut Vec::new()).unwrap(), number(8.0));

    let clock = Function::Native { arity: 0, name: "clock".to_string() };
    match clock.call(&mut interpreter, &Vec::new()) {
        Signal::Native(name, arguments) => {
            assert_eq!(name, "clock");
            assert!(arguments.is_empty());
        }
        other => panic!("not a request: {:?}", other),
    }
    assert!(interpreter.is_waiting());
}

#[test]
fn malformed_syntax_is_told_apart() {
    let plus = Token::new(TokenType::Plus, "+".to_string(), 1);
    let comma = Token::new(TokenType::Comma, ",".to_string(), 1);
    let one = || Box::new(Expr::Literal(number(1.0)));
    assert!(Expr::Binary(one(), plus.clone(), one()).is_well_formed());
    assert!(!Expr::Binary(one(), comma.clone(), one()).is_well_formed());
    assert!(!Expr::Unary(plus.clone(), one()).is_well_formed());
    assert!(Expr::Logical(one(), comma.clone(), one()).is_well_formed());
    let odd = Function::Lox {
        arity: 2,
        params: Box::new(Vec::new()),
        body: Box::new(Vec::new()),
        closure: 0,
    };
    assert!(!odd.is_well_formed());
    assert!(!Literal::Function(odd.clone()).is_well_formed());
    assert!(!Stmt::Print(Expr::Literal(Literal::Function(odd))).is_well_formed());
    assert!(!Stmt::Block(vec![Stmt::Expression(Expr::Unary(comma, one()))]).is_well_formed());
}
