use oil::environment::Environment;
use oil::interpreter::{reversed, Arithmetic, Evaluation, Interpreter};
use oil::object::Object;
use oil::parser::Parser;
use oil::scanner::{count_numbers, with_number_values, Scanner};
use oil::statement::Statement;
use oil::token::TokenType;

fn statements_of(source: &str) -> Vec<Statement> {
    let mut scanner = Scanner::new();
    let tokens = scanner.scan_tokens(source).expect("the source scans");
    let values: Vec<u64> = tokens
        .iter()
        .filter(|token| token.token_type == TokenType::Number)
        .map(|token| token.lexeme.parse::<f64>().unwrap().to_bits())
        .collect();
    assert_eq!(values.len(), count_numbers(&tokens));
    let tokens = with_number_values(tokens, &values);
    let mut parser = Parser::new();
    let (statements, reports) = parser.parse(tokens);
    assert!(reports.is_empty(), "{:?}", reports);
    statements
}

fn compute(op: Arithmetic, a: u64, b: u64) -> u64 {
    let (x, y) = (f64::from_bits(a), f64::from_bits(b));
    let r = match op {
        Arithmetic::Add => x + y,
        Arithmetic::Subtract => x - y,
        Arithmetic::Multiply => x * y,
        Arithmetic::Divide => x / y,
    };
    r.to_bits()
}

/// Evaluates the expression of each expression statement, doing the arithmetic asked for.
fn run(source: &str, env: &mut Environment) -> Vec<Result<Object, (usize, String)>> {
    let mut out = Vec::new();
    for statement in statements_of(source) {
        let expr = match &statement {
            Statement::Expression(e) | Statement::Print(e) => e,
            _ => panic!("only expression statements here"),
        };
        let mut results = Vec::new();
        loop {
            match Interpreter::evaluate(expr, env, &results) {
                Evaluation::Done(r) => {
                    out.push(r.map_err(|e| (e.line, e.message)));
                    break;
                }
                Evaluation::NeedsArithmetic(op, a, b) => results.push(compute(op, a, b)),
            }
        }
    }
    out
}

fn value(source: &str) -> Object {
    let mut env = Environment::new(None);
    run(source, &mut env).pop().unwrap().expect("evaluates")
}

fn number(source: &str) -> f64 {
    match value(source) {
        Object::Num(n) => f64::from_bits(n),
        other => panic!("not a number: {:?}", other),
    }
}

fn boolean(source: &str) -> bool {
    match value(source) {
        Object::Bool(b) => b,
        other => panic!("not a boolean: {:?}", other),
    }
}

fn string(source: &str) -> String {
    match value(source) {
        Object::Str(s) => s,
        other => panic!("not a string: {:?}", other),
    }
}

fn error(source: &str) -> (usize, String) {
    let mut env = Environment::new(None);
    run(source, &mut env).pop().unwrap().expect_err("fails")
}

#[test]
fn arithmetic_on_numbers() {
    assert_eq!(number("5 + 10;"), 15.0);
    assert_eq!(number("2 * 3 - 4 / 8;"), 5.5);
    assert_eq!(number("-(1 + 2);"), -3.0);
    assert_eq!(number("0.1 + 0.2;"), 0.1 + 0.2);
    assert!(number("1 / 0;").is_infinite());
}

#[test]
fn comparisons_on_numbers() {
    assert!(boolean("5 > 3;"));
    assert!(!boolean("3 > 5;"));
    assert!(boolean("3 >= 3;"));
    assert!(boolean("2 < 3;"));
    assert!(boolean("-1 <= -1;"));
    assert!(!boolean("(0 / 0) < 1;"));
    assert!(!boolean("(0 / 0) >= (0 / 0);"));
    assert!(boolean("-0 >= 0;"));
}

#[test]
fn equality_of_values() {
    assert!(boolean("1 == 1;"));
    assert!(boolean("-0 == 0;"));
    assert!(!boolean("(0 / 0) == (0 / 0);"));
    assert!(boolean("(0 / 0) != (0 / 0);"));
    assert!(boolean("\"a\" == \"a\";"));
    assert!(boolean("null == null;"));
    assert!(!boolean("null == false;"));
    assert!(!boolean("1 == \"1\";"));
    assert!(boolean("true != false;"));
}

#[test]
fn strings_join_with_plus() {
    assert_eq!(string("\"oli\" + \"ve\";"), "olive");
}

#[test]
fn negating_a_string_reverses_it() {
    assert_eq!(string("-\"hello\";"), "olleh");
    assert_eq!(string("--\"hello\";"), "hello");
    assert_eq!(string("-\"\";"), "");
}

#[test]
fn not_gives_the_truthiness_of_its_operand() {
    assert!(boolean("!true;"));
    assert!(!boolean("!false;"));
    assert!(!boolean("!null;"));
    assert!(boolean("!\"\";"));
    assert!(boolean("!0;"));
}

#[test]
fn logical_operators_short_circuit() {
    assert!(matches!(value("null or 3;"), Object::Num(n) if f64::from_bits(n) == 3.0));
    assert_eq!(string("\"a\" or 3;"), "a");
    assert!(matches!(value("false and 3;"), Object::Bool(false)));
    assert!(matches!(value("1 and \"b\";"), Object::Str(s) if s == "b"));
    let mut env = Environment::new(None);
    env.define("x", Object::Num(1.0f64.to_bits()));
    let _ = run("true or (x = 5);", &mut env);
    assert!(matches!(run("x;", &mut env)[0], Ok(Object::Num(n)) if f64::from_bits(n) == 1.0));
}

#[test]
fn invalid_operands_are_errors_with_their_line() {
    assert_eq!(
        error("1 +\n \"a\";"),
        (0, "Tried to perform binary operation on invalid expressions!".to_string())
    );
    assert_eq!(error("\"a\" - \"b\";"), (0, "Could not parse binary operator for string.".to_string()));
    assert_eq!(error("5 % 2;"), (0, "Could not parse binary operator for number.".to_string()));
    assert_eq!(error("\n-true;"), (1, "Failed to parse number from unary operator.".to_string()));
}

#[test]
fn variables_read_and_assign_through_the_environment() {
    let mut env = Environment::new(None);
    env.define("a", Object::Num(2.0f64.to_bits()));
    let results = run("a * 4; a = a + 1; a;", &mut env);
    assert!(matches!(results[0], Ok(Object::Num(n)) if f64::from_bits(n) == 8.0));
    assert!(matches!(results[1], Ok(Object::Num(n)) if f64::from_bits(n) == 3.0));
    assert!(matches!(results[2], Ok(Object::Num(n)) if f64::from_bits(n) == 3.0));
}

#[test]
fn undefined_variables_are_errors() {
    assert_eq!(error("\n\nnope;"), (2, "Undefined variable 'nope'.".to_string()));
    assert_eq!(error("nope = 1;"), (0, "Undefined variable 'nope'.".to_string()));
}

#[test]
fn evaluation_stops_for_arithmetic_and_leaves_the_environment() {
    let statements = statements_of("a = 1 + 2;");
    let expr = match &statements[0] {
        Statement::Expression(e) => e,
        _ => unreachable!(),
    };
    let mut env = Environment::new(None);
    env.define("a", Object::Null);
    match Interpreter::evaluate(expr, &mut env, &Vec::new()) {
        Evaluation::NeedsArithmetic(op, a, b) => {
            assert_eq!(op, Arithmetic::Add);
            assert_eq!(f64::from_bits(a), 1.0);
            assert_eq!(f64::from_bits(b), 2.0);
        }
        other => panic!("unexpected {:?}", other),
    }
    let probe = statements_of("a;");
    if let Statement::Expression(e) = &probe[0] {
        assert!(matches!(Interpreter::evaluate(e, &mut env, &Vec::new()), Evaluation::Done(Ok(Object::Null))));
    }
    let given = vec![3.0f64.to_bits()];
    assert!(matches!(Interpreter::evaluate(expr, &mut env, &given), Evaluation::Done(Ok(Object::Num(n))) if f64::from_bits(n) == 3.0));
    let more = vec![3.0f64.to_bits(), 99.0f64.to_bits()];
    assert!(matches!(Interpreter::evaluate(expr, &mut env, &more), Evaluation::Done(Ok(Object::Num(n))) if f64::from_bits(n) == 3.0));
}

#[test]
fn reversed_reverses_characters() {
    assert_eq!(reversed(&"abc".to_string()), "cba");
    assert_eq!(reversed(&String::new()), "");
}
