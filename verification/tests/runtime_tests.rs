use oil::environment::Environment;
use oil::logger::{decimal_string, Logger};
use oil::object::{
    double_less, double_less_equal, double_negate, doubles_equal, trim, word_is, Object,
};
use oil::token::{Token, TokenType};

fn name(text: &str, line: usize) -> Token {
    Token::new(TokenType::Identifier, text, Object::Null, line)
}

fn num(x: f64) -> Object {
    Object::Num(x.to_bits())
}

fn as_num(o: &Object) -> f64 {
    match o {
        Object::Num(n) => f64::from_bits(*n),
        other => panic!("not a number: {:?}", other),
    }
}

#[test]
fn truthiness_follows_the_table() {
    assert!(Object::Bool(true).is_truthy());
    assert!(!Object::Bool(false).is_truthy());
    assert!(!Object::Null.is_truthy());
    assert!(Object::Str("".to_string()).is_truthy());
    assert!(Object::Str("any".to_string()).is_truthy());
    assert!(num(0.0).is_truthy());
    assert!(num(-3.5).is_truthy());
}

#[test]
fn equality_is_by_kind_and_value() {
    assert!(num(1.5).is_equal(&num(1.5)));
    assert!(num(0.0).is_equal(&num(-0.0)));
    assert!(!num(f64::NAN).is_equal(&num(f64::NAN)));
    assert!(Object::Str("x".into()).is_equal(&Object::Str("x".into())));
    assert!(!Object::Str("x".into()).is_equal(&Object::Str("y".into())));
    assert!(!Object::Null.is_equal(&Object::Bool(false)));
    assert!(Object::Bool(true).is_equal(&Object::Bool(true)));
}

#[test]
fn double_comparisons_agree_with_the_hardware() {
    let values = [
        0.0,
        -0.0,
        1.0,
        -1.0,
        2.5,
        -2.5,
        f64::INFINITY,
        f64::NEG_INFINITY,
        f64::NAN,
        f64::MIN_POSITIVE,
        f64::MAX,
        f64::MIN,
        1e-310,
    ];
    for &a in values.iter() {
        for &b in values.iter() {
            assert_eq!(doubles_equal(a.to_bits(), b.to_bits()), a == b, "{} == {}", a, b);
            assert_eq!(double_less(a.to_bits(), b.to_bits()), a < b, "{} < {}", a, b);
            assert_eq!(double_less_equal(a.to_bits(), b.to_bits()), a <= b, "{} <= {}", a, b);
        }
        assert_eq!(double_negate(a.to_bits()), (-a).to_bits());
    }
}

#[test]
fn parse_reads_user_input() {
    assert!(matches!(Object::parse("  null ", None), Object::Null));
    assert!(matches!(Object::parse("NULL", None), Object::Null));
    assert!(matches!(Object::parse("true", None), Object::Bool(true)));
    assert!(matches!(Object::parse(" false\n", None), Object::Bool(false)));
    let n = Object::parse(" 42 ", Some(42.0f64.to_bits()));
    assert_eq!(as_num(&n), 42.0);
    match Object::parse("\t hello world \n", None) {
        Object::Str(s) => assert_eq!(s, "hello world"),
        other => panic!("unexpected {:?}", other),
    }
    match Object::parse("True", None) {
        Object::Str(s) => assert_eq!(s, "True"),
        other => panic!("unexpected {:?}", other),
    }
}

#[test]
fn trim_removes_white_space_at_both_ends() {
    assert_eq!(trim("  a b  "), "a b");
    assert_eq!(trim("\u{3000}x\u{a0}"), "x");
    assert_eq!(trim("   "), "");
    assert_eq!(trim(""), "");
    assert!(word_is("abc", "abc"));
    assert!(!word_is("abc", "abd"));
}

#[test]
fn define_then_get() {
    let mut env = Environment::new(None);
    env.define("a", num(1.0));
    assert_eq!(as_num(&env.get(&name("a", 0)).unwrap()), 1.0);
    env.define("a", num(2.0));
    assert_eq!(as_num(&env.get(&name("a", 0)).unwrap()), 2.0);
    let err = env.get(&name("b", 4)).unwrap_err();
    assert_eq!(err.line, 4);
    assert_eq!(err.message, "Undefined variable 'b'.");
}

#[test]
fn assign_changes_the_innermost_binding() {
    let mut outer = Environment::new(None);
    outer.define("a", num(1.0));
    outer.define("b", num(2.0));
    let mut inner = Environment::new(Some(Box::new(outer)));
    inner.define("a", num(10.0));
    inner.assign(&name("a", 0), num(11.0)).unwrap();
    inner.assign(&name("b", 0), num(22.0)).unwrap();
    assert_eq!(as_num(&inner.get(&name("a", 0)).unwrap()), 11.0);
    assert_eq!(as_num(&inner.get(&name("b", 0)).unwrap()), 22.0);
    let err = inner.assign(&name("c", 3), num(0.0)).unwrap_err();
    assert_eq!(err.message, "Undefined variable 'c'.");
    assert_eq!(err.line, 3);
}

#[test]
fn new_ref_gives_an_empty_scope() {
    let env = Environment::new_ref(None);
    assert!(env.get(&name("a", 0)).is_err());
}

#[test]
fn reports_name_line_and_place() {
    assert_eq!(Logger::error(12, "Oops."), "[line 12] Error at : Oops.");
    let token = Token::new(TokenType::Identifier, "abc", Object::Null, 3);
    assert_eq!(Logger::token_error(&token, "Bad."), "[line 3] Error at abc: Bad.");
    let end = Token::new(TokenType::EOF, "", Object::Null, 7);
    assert_eq!(Logger::token_error(&end, "Bad."), "[line 7] Error at end: Bad.");
}

#[test]
fn decimal_notation() {
    assert_eq!(decimal_string(0), "0");
    assert_eq!(decimal_string(9), "9");
    assert_eq!(decimal_string(10), "10");
    assert_eq!(decimal_string(1234567890), "1234567890");
    assert_eq!(decimal_string(usize::MAX), usize::MAX.to_string());
}

#[test]
fn token_new_keeps_its_parts() {
    let token = Token::new(TokenType::Number, "12", num(12.0), 5);
    assert_eq!(token.token_type, TokenType::Number);
    assert_eq!(token.lexeme, "12");
    assert_eq!(token.line, 5);
    assert_eq!(as_num(token.literal.as_ref().unwrap()), 12.0);
    let copy = token.clone();
    assert_eq!(copy.lexeme, "12");
}

#[test]
fn leaving_a_scope_gives_back_the_enclosing_one_with_its_assignments() {
    let mut outer = Environment::new(None);
    outer.define("a", Object::Bool(false));
    let mut inner = Environment::new(Some(Box::new(outer)));
    inner.define("b", Object::Null);
    let name = Token::new(TokenType::Identifier, "a", Object::Null, 1);
    assert!(inner.assign(&name, Object::Bool(true)).is_ok());
    let outer = inner.into_enclosing().expect("an enclosing scope");
    assert!(matches!(outer.get(&name), Ok(Object::Bool(true))));
    let b = Token::new(TokenType::Identifier, "b", Object::Null, 1);
    assert!(outer.get(&b).is_err());
    assert!(outer.into_enclosing().is_none());
}
