use oil::expression::Expression;
use oil::object::Object;
use oil::parser::Parser;
use oil::scanner::{count_numbers, with_number_values, Scanner};
use oil::statement::Statement;
use oil::token::{Token, TokenType};

fn tokens_of(source: &str) -> Vec<Token> {
    let mut scanner = Scanner::new();
    let tokens = scanner.scan_tokens(source).expect("the source scans");
    let values: Vec<u64> = tokens
        .iter()
        .filter(|token| token.token_type == TokenType::Number)
        .map(|token| token.lexeme.parse::<f64>().unwrap().to_bits())
        .collect();
    assert_eq!(values.len(), count_numbers(&tokens));
    let tokens = with_number_values(tokens, &values);
    tokens
}

fn object_text(value: &Object) -> String {
    match value {
        Object::Str(s) => format!("\"{}\"", s),
        Object::Num(n) => format!("{}", f64::from_bits(*n)),
        Object::Bool(b) => format!("{}", b),
        Object::Null => "null".to_string(),
    }
}

fn expr_text(e: &Expression) -> String {
    match e {
        Expression::Binary { left, operator, right } => {
            format!("({} {} {})", operator.lexeme, expr_text(left), expr_text(right))
        }
        Expression::Logical { left, operator, right } => {
            format!("({} {} {})", operator.lexeme, expr_text(left), expr_text(right))
        }
        Expression::Grouping { expression } => format!("(group {})", expr_text(expression)),
        Expression::Literal { value } => object_text(value),
        Expression::Unary { operator, right } => format!("({} {})", operator.lexeme, expr_text(right)),
        Expression::Variable { name } => name.lexeme.clone(),
        Expression::Assign { name, value } => format!("(= {} {})", name.lexeme, expr_text(value)),
    }
}

fn stmt_text(s: &Statement) -> String {
    match s {
        Statement::Var { name, initializer } => match initializer {
            Some(e) => format!("(var {} {})", name.lexeme, expr_text(e)),
            None => format!("(var {})", name.lexeme),
        },
        Statement::Expression(e) => format!("(expr {})", expr_text(e)),
        Statement::Print(e) => format!("(print {})", expr_text(e)),
        Statement::ReadInput { target_var } => format!("(read_input {})", target_var.lexeme),
        Statement::If { condition, then_branch, else_branch } => match else_branch {
            Some(e) => format!("(if {} {} {})", expr_text(condition), stmt_text(then_branch), stmt_text(e)),
            None => format!("(if {} {})", expr_text(condition), stmt_text(then_branch)),
        },
        Statement::While { condition, body } => {
            format!("(while {} {})", expr_text(condition), stmt_text(body))
        }
        Statement::Block(items) => {
            let inner: Vec<String> = items.iter().map(stmt_text).collect();
            format!("{{{}}}", inner.join(" "))
        }
    }
}

fn parse(source: &str) -> (Vec<String>, Vec<String>) {
    let mut parser = Parser::new();
    let (statements, reports) = parser.parse(tokens_of(source));
    (statements.iter().map(stmt_text).collect(), reports)
}

#[test]
fn parses_precedence_of_operators() {
    let (statements, reports) = parse("1 + 2 * 3 - -4 / 2 == 5 > 1;");
    assert!(reports.is_empty());
    assert_eq!(statements, vec!["(expr (== (- (+ 1 (* 2 3)) (/ (- 4) 2)) (> 5 1)))"]);
}

#[test]
fn parses_logical_operators_loosest() {
    let (statements, _) = parse("a or b and c == d;");
    assert_eq!(statements, vec!["(expr (or a (and b (== c d))))"]);
}

#[test]
fn binary_operators_group_from_the_left() {
    let (statements, _) = parse("1 - 2 - 3; 8 % 3 % 2;");
    assert_eq!(statements, vec!["(expr (- (- 1 2) 3))", "(expr (% (% 8 3) 2))"]);
}

#[test]
fn assignment_groups_from_the_right() {
    let (statements, reports) = parse("a = b = 3;");
    assert!(reports.is_empty());
    assert_eq!(statements, vec!["(expr (= a (= b 3)))"]);
}

#[test]
fn invalid_assignment_target_is_reported() {
    let (statements, reports) = parse("1 = 2; print 3;");
    assert_eq!(statements, vec!["(print 3)"]);
    assert_eq!(reports, vec!["[line 0] Error at 2: Invalid assignment target."]);
}

#[test]
fn parses_literals_and_groupings() {
    let (statements, _) = parse("print (true); print false; print null; print \"s\";");
    assert_eq!(
        statements,
        vec!["(print (group true))", "(print false)", "(print null)", "(print \"s\")"]
    );
}

#[test]
fn parses_variable_declarations() {
    let (statements, reports) = parse("var a = 5; var b;");
    assert!(reports.is_empty());
    assert_eq!(statements, vec!["(var a 5)", "(var b)"]);
}

#[test]
fn if_branch_without_braces() {
    let (statements, reports) = parse("if (5 > 3) print 1; else print 2;");
    assert!(reports.is_empty());
    assert_eq!(statements, vec!["(if (> 5 3) (print 1) (print 2))"]);
    let (statements, _) = parse("if (x) { print 1; print 2; }");
    assert_eq!(statements, vec!["(if x {(print 1) (print 2)})"]);
}

#[test]
fn parses_while_and_blocks() {
    let (statements, _) = parse("while (a < 3) { a = a + 1; }");
    assert_eq!(statements, vec!["(while (< a 3) {(expr (= a (+ a 1)))})"]);
}

#[test]
fn for_loop_with_all_components() {
    let (statements, reports) = parse("for (var i = 0; i < 3; i = i + 1) print i;");
    assert!(reports.is_empty());
    assert_eq!(
        statements,
        vec!["{(var i 0) (while (< i 3) {(print i) (expr (= i (+ i 1)))})}"]
    );
}

#[test]
fn for_loop_components_can_be_left_out() {
    let (statements, reports) = parse("for (;;) print 1;");
    assert!(reports.is_empty());
    assert_eq!(statements, vec!["(while true (print 1))"]);
    let (statements, _) = parse("for (; counter > 5;) print 1;");
    assert_eq!(statements, vec!["(while (> counter 5) (print 1))"]);
    let (statements, _) = parse("for (; ; counter = counter + 1) print 1;");
    assert_eq!(statements, vec!["(while true {(print 1) (expr (= counter (+ counter 1)))})"]);
    let (statements, _) = parse("for (x = 1; ;) print x;");
    assert_eq!(statements, vec!["{(expr (= x 1)) (while true (print x))}"]);
}

#[test]
fn read_input_takes_a_variable() {
    let (statements, reports) = parse("var a; read_input a;");
    assert!(reports.is_empty());
    assert_eq!(statements, vec!["(var a)", "(read_input a)"]);
}

#[test]
fn read_input_of_a_non_variable_is_dropped_silently() {
    let (statements, reports) = parse("read_input 5; print 1; print 2;");
    assert!(reports.is_empty());
    assert_eq!(statements, vec!["(print 2)"]);
}

#[test]
fn missing_semicolon_is_reported_and_parsing_resumes() {
    let (statements, reports) = parse("print 1\nprint 2; print 3;");
    assert_eq!(statements, vec!["(print 3)"]);
    assert_eq!(reports, vec!["[line 1] Error at print: Expected ';' after statement."]);
}

#[test]
fn error_at_the_end_names_end() {
    let (statements, reports) = parse("print 1");
    assert!(statements.is_empty());
    assert_eq!(reports, vec!["[line 0] Error at end: Expected ';' after statement."]);
}

#[test]
fn missing_expression_is_reported() {
    let (statements, reports) = parse("+; var x = 1;");
    assert_eq!(statements, vec!["(var x 1)"]);
    assert_eq!(reports, vec!["[line 0] Error at +: Expected expression."]);
}

#[test]
fn unclosed_block_is_reported() {
    let (statements, reports) = parse("{ print 1;");
    assert!(statements.is_empty());
    assert_eq!(reports, vec!["[line 0] Error at end: Expected '}' after block."]);
}

#[test]
fn several_errors_are_all_reported() {
    let (statements, reports) = parse("var = 1; if 1; print (2;");
    assert!(statements.is_empty());
    assert_eq!(
        reports,
        vec![
            "[line 0] Error at =: Expected a variable name.",
            "[line 0] Error at 1: Expected '(' after 'if'.",
            "[line 0] Error at ;: Expected ')' after expression.",
        ]
    );
}

#[test]
fn empty_program_has_no_statements() {
    let (statements, reports) = parse("");
    assert!(statements.is_empty());
    assert!(reports.is_empty());
}
