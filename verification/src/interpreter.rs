use vstd::prelude::*;

use crate::environment::{assigned, lookup, undefined_message, Environment, RuntimeError, Scope};
use crate::expression::Expression;
use crate::object::{
    double_less, double_less_equal, double_negate, float_le, float_lt, float_neg, is_nan, objects_equal,
    order_key, truthy, Object, ObjectV,
};
use crate::token::{Token, TokenType};

verus! {

/// The arithmetic of doubles that evaluation hands to its caller.
#[derive(Clone, Copy, Debug, PartialEq, Eq, Structural)]
pub enum Arithmetic {
    Add,
    Subtract,
    Multiply,
    Divide,
}

/// How far an evaluation got: a value, an error on a line, or a point where it needs the
/// result of an arithmetic operation on two doubles that it was not given.
pub enum Outcome {
    Value(ObjectV),
    Failure(nat, Seq<char>),
    Stuck(Arithmetic, u64, u64),
}

/// An evaluation: how far it got, the scopes after it, and how many of the given arithmetic
/// results it used.
pub struct Evaluated {
    pub outcome: Outcome,
    pub scopes: Seq<Scope>,
    pub used: nat,
}

/// What one binary operator gives on two values.
pub enum BinaryStep {
    Value(ObjectV),
    Fail(Seq<char>),
    Arith(Arithmetic, u64, u64),
}

pub open spec fn number_op_message() -> Seq<char> {
    "Could not parse binary operator for number."@
}

pub open spec fn string_op_message() -> Seq<char> {
    "Could not parse binary operator for string."@
}

pub open spec fn invalid_operands_message() -> Seq<char> {
    "Tried to perform binary operation on invalid expressions!"@
}

pub open spec fn unary_number_message() -> Seq<char> {
    "Failed to parse number from unary operator."@
}

pub open spec fn unary_operator_message() -> Seq<char> {
    "Failed to reach value for unary operator."@
}

/// A unary operator on a value: `!` gives the truthiness of its operand, `-` negates a number
/// and reverses a string.
pub open spec fn unary_result(operator: TokenType, right: ObjectV) -> Result<ObjectV, Seq<char>> {
    if operator == TokenType::Not {
        Ok(ObjectV::Bool(truthy(right)))
    } else if operator == TokenType::Minus {
        match right {
            ObjectV::Num(n) => Ok(ObjectV::Num(float_neg(n))),
            ObjectV::Str(s) => Ok(ObjectV::Str(s.reverse())),
            _ => Err(unary_number_message()),
        }
    } else {
        Err(unary_operator_message())
    }
}

/// A binary operator on two values. `==` and `!=` take any values; comparisons and arithmetic
/// take two numbers, and `+` also two strings, which it joins.
pub open spec fn binary_step(operator: TokenType, left: ObjectV, right: ObjectV) -> BinaryStep {
    if operator == TokenType::NotEqual {
        BinaryStep::Value(ObjectV::Bool(!objects_equal(left, right)))
    } else if operator == TokenType::EqualEqual {
        BinaryStep::Value(ObjectV::Bool(objects_equal(left, right)))
    } else {
        match (left, right) {
            (ObjectV::Num(a), ObjectV::Num(b)) => if operator == TokenType::Greater {
                BinaryStep::Value(ObjectV::Bool(float_lt(b, a)))
            } else if operator == TokenType::GreaterEqual {
                BinaryStep::Value(ObjectV::Bool(float_le(b, a)))
            } else if operator == TokenType::Less {
                BinaryStep::Value(ObjectV::Bool(float_lt(a, b)))
            } else if operator == TokenType::LessEqual {
                BinaryStep::Value(ObjectV::Bool(float_le(a, b)))
            } else if operator == TokenType::Minus {
                BinaryStep::Arith(Arithmetic::Subtract, a, b)
            } else if operator == TokenType::Plus {
                BinaryStep::Arith(Arithmetic::Add, a, b)
            } else if operator == TokenType::Slash {
                BinaryStep::Arith(Arithmetic::Divide, a, b)
            } else if operator == TokenType::Asterisk {
                BinaryStep::Arith(Arithmetic::Multiply, a, b)
            } else {
                BinaryStep::Fail(number_op_message())
            },
            (ObjectV::Str(a), ObjectV::Str(b)) => if operator == TokenType::Plus {
                BinaryStep::Value(ObjectV::Str(a + b))
            } else {
                BinaryStep::Fail(string_op_message())
            },
            _ => BinaryStep::Fail(invalid_operands_message()),
        }
    }
}

/// The evaluation of an expression in `scopes`, where `results` are the results of the
/// arithmetic operations met, in the order met, and `used` of them are already used.
pub open spec fn eval(e: Expression, scopes: Seq<Scope>, results: Seq<u64>, used: nat) -> Evaluated
    decreases e,
{
    match e {
        Expression::Literal { value } => Evaluated {
            outcome: Outcome::Value(value@),
            scopes,
            used,
        },
        Expression::Grouping { expression } => eval(*expression, scopes, results, used),
        Expression::Variable { name } => match lookup(scopes, name.lexeme@) {
            Some(v) => Evaluated { outcome: Outcome::Value(v), scopes, used },
            None => Evaluated {
                outcome: Outcome::Failure(name.line as nat, undefined_message(name.lexeme@)),
                scopes,
                used,
            },
        },
        Expression::Assign { name, value } => {
            let inner = eval(*value, scopes, results, used);
            match inner.outcome {
                Outcome::Value(v) => match assigned(inner.scopes, name.lexeme@, v) {
                    Some(s) => Evaluated { outcome: Outcome::Value(v), scopes: s, used: inner.used },
                    None => Evaluated {
                        outcome: Outcome::Failure(
                            name.line as nat,
                            undefined_message(name.lexeme@),
                        ),
                        scopes: inner.scopes,
                        used: inner.used,
                    },
                },
                _ => inner,
            }
        },
        Expression::Logical { left, operator, right } => {
            let l = eval(*left, scopes, results, used);
            match l.outcome {
                Outcome::Value(v) => if operator.token_type == TokenType::Or {
                    if truthy(v) {
                        l
                    } else {
                        eval(*right, l.scopes, results, l.used)
                    }
                } else {
                    if !truthy(v) {
                        l
                    } else {
                        eval(*right, l.scopes, results, l.used)
                    }
                },
                _ => l,
            }
        },
        Expression::Unary { operator, right } => {
            let r = eval(*right, scopes, results, used);
            match r.outcome {
                Outcome::Value(v) => match unary_result(operator.token_type, v) {
                    Ok(x) => Evaluated { outcome: Outcome::Value(x), scopes: r.scopes, used: r.used },
                    Err(m) => Evaluated {
                        outcome: Outcome::Failure(operator.line as nat, m),
                        scopes: r.scopes,
                        used: r.used,
                    },
                },
                _ => r,
            }
        },
        Expression::Binary { left, operator, right } => {
            let l = eval(*left, scopes, results, used);
            match l.outcome {
                Outcome::Value(lv) => {
                    let r = eval(*right, l.scopes, results, l.used);
                    match r.outcome {
                        Outcome::Value(rv) => match binary_step(operator.token_type, lv, rv) {
                            BinaryStep::Value(x) => Evaluated {
                                outcome: Outcome::Value(x),
                                scopes: r.scopes,
                                used: r.used,
                            },
                            BinaryStep::Fail(m) => Evaluated {
                                outcome: Outcome::Failure(operator.line as nat, m),
                                scopes: r.scopes,
                                used: r.used,
                            },
                            BinaryStep::Arith(op, a, b) => if r.used < results.len() {
                                Evaluated {
                                    outcome: Outcome::Value(ObjectV::Num(results[r.used as int])),
                                    scopes: r.scopes,
                                    used: r.used + 1,
                                }
                            } else {
                                Evaluated {
                                    outcome: Outcome::Stuck(op, a, b),
                                    scopes: r.scopes,
                                    used: r.used,
                                }
                            },
                        },
                        _ => r,
                    }
                },
                _ => l,
            }
        },
    }
}

/// The result of handing an expression to the interpreter: its value or error, or the
/// arithmetic operation on two doubles whose result it needs next.
#[derive(Debug)]
pub enum Evaluation {
    Done(Result<Object, RuntimeError>),
    NeedsArithmetic(Arithmetic, u64, u64),
}

enum Stop {
    Failure(RuntimeError),
    Stuck(Arithmetic, u64, u64),
}

/// How an exec evaluation stands to the evaluation `ev`.
spec fn finished_as(r: Result<Object, Stop>, ev: Evaluated, env: Environment, used: usize) -> bool {
    &&& env.wf()
    &&& env.scopes() == ev.scopes
    &&& used == ev.used
    &&& match ev.outcome {
        Outcome::Value(v) => r matches Ok(o) && o@ == v,
        Outcome::Failure(line, m) => r matches Err(Stop::Failure(e)) && e.line == line
            && e.message@ == m,
        Outcome::Stuck(op, a, b) => r matches Err(Stop::Stuck(op2, a2, b2)) && op2 == op && a2
            == a && b2 == b,
    }
}

/// Evaluates expressions of Oil.
pub struct Interpreter;

impl Interpreter {
    /// Evaluates `expr` in `env`.
    ///
    /// Arithmetic on doubles is left to the caller: `results` holds the results of the
    /// operations met so far, in order. Where evaluation meets one more, it stops and names
    /// it, leaving `env` as it was; the caller evaluates again with its result added.
    pub fn evaluate(expr: &Expression, env: &mut Environment, results: &Vec<u64>) -> (r: Evaluation)
        requires
            old(env).wf(),
        ensures
            final(env).wf(),
            ({
                let ev = eval(*expr, old(env).scopes(), results@, 0);
                match ev.outcome {
                    Outcome::Value(v) => r matches Evaluation::Done(Ok(o)) && o@ == v
                        && final(env).scopes() == ev.scopes,
                    Outcome::Failure(line, m) => r matches Evaluation::Done(Err(e)) && e.line
                        == line && e.message@ == m && final(env).scopes() == ev.scopes,
                    Outcome::Stuck(op, a, b) => r matches Evaluation::NeedsArithmetic(
                        op2,
                        a2,
                        b2,
                    ) && op2 == op && a2 == a && b2 == b && final(env).scopes() == old(
                        env,
                    ).scopes(),
                }
            }),
    {
        let mut scratch = env.clone();
        let mut used: usize = 0;
        let r = Self::evaluate_from(expr, &mut scratch, results, &mut used);
        match r {
            Ok(v) => {
                *env = scratch;
                Evaluation::Done(Ok(v))
            },
            Err(Stop::Failure(e)) => {
                *env = scratch;
                Evaluation::Done(Err(e))
            },
            Err(Stop::Stuck(op, a, b)) => Evaluation::NeedsArithmetic(op, a, b),
        }
    }

    fn evaluate_from(
        expr: &Expression,
        env: &mut Environment,
        results: &Vec<u64>,
        used: &mut usize,
    ) -> (r: Result<Object, Stop>)
        requires
            old(env).wf(),
            *old(used) <= results@.len(),
        ensures
            finished_as(
                r,
                eval(*expr, old(env).scopes(), results@, *old(used) as nat),
                *final(env),
                *final(used),
            ),
            *final(used) <= results@.len(),
        decreases expr,
    {
        match expr {
            Expression::Literal { value } => Ok(value.clone()),
            Expression::Grouping { expression } => Self::evaluate_from(expression, env, results, used),
            Expression::Variable { name } => match env.get(name) {
                Ok(v) => Ok(v),
                Err(e) => Err(Stop::Failure(e)),
            },
            Expression::Assign { name, value } => {
                let v = Self::evaluate_from(value, env, results, used)?;
                let ghost vv = v@;
                match env.assign(name, v.clone()) {
                    Ok(()) => Ok(v),
                    Err(e) => Err(Stop::Failure(e)),
                }
            },
            Expression::Logical { left, operator, right } => {
                let l = Self::evaluate_from(left, env, results, used)?;
                if operator.token_type == TokenType::Or {
                    if Self::is_truthy(&l) {
                        return Ok(l);
                    }
                } else {
                    if !Self::is_truthy(&l) {
                        return Ok(l);
                    }
                }
                Self::evaluate_from(right, env, results, used)
            },
            Expression::Unary { operator, right } => {
                let r = Self::evaluate_from(right, env, results, used)?;
                match Self::unary(operator, r) {
                    Ok(x) => Ok(x),
                    Err(e) => Err(Stop::Failure(e)),
                }
            },
            Expression::Binary { left, operator, right } => {
                let l = Self::evaluate_from(left, env, results, used)?;
                let r = Self::evaluate_from(right, env, results, used)?;
                match Self::binary(operator, l, r) {
                    BinaryOutcome::Value(x) => Ok(x),
                    BinaryOutcome::Failure(e) => Err(Stop::Failure(e)),
                    BinaryOutcome::Arithmetic(op, a, b) => {
                        if *used < results.len() {
                            let x = results[*used];
                            *used = *used + 1;
                            Ok(Object::Num(x))
                        } else {
                            Err(Stop::Stuck(op, a, b))
                        }
                    },
                }
            },
        }
    }

    /// A unary operator on a value.
    fn unary(operator: &Token, right: Object) -> (r: Result<Object, RuntimeError>)
        ensures
            match unary_result(operator.token_type, right@) {
                Ok(v) => r matches Ok(o) && o@ == v,
                Err(m) => r matches Err(e) && e.line == operator.line && e.message@ == m,
            },
    {
        match operator.token_type {
            TokenType::Not => Ok(Object::Bool(Self::is_truthy(&right))),
            TokenType::Minus => match right {
                Object::Num(num) => Ok(Object::Num(double_negate(num))),
                Object::Str(s) => Ok(Object::Str(reversed(&s))),
                _ => Err(
                    RuntimeError {
                        line: operator.line,
                        message: String::from_str("Failed to parse number from unary operator."),
                    },
                ),
            },
            _ => Err(
                RuntimeError {
                    line: operator.line,
                    message: String::from_str("Failed to reach value for unary operator."),
                },
            ),
        }
    }

    /// A binary operator on two values.
    fn binary(operator: &Token, left: Object, right: Object) -> (r: BinaryOutcome)
        ensures
            match binary_step(operator.token_type, left@, right@) {
                BinaryStep::Value(v) => r matches BinaryOutcome::Value(o) && o@ == v,
                BinaryStep::Fail(m) => r matches BinaryOutcome::Failure(e) && e.line
                    == operator.line && e.message@ == m,
                BinaryStep::Arith(op, a, b) => r matches BinaryOutcome::Arithmetic(op2, a2, b2)
                    && op2 == op && a2 == a && b2 == b,
            },
    {
        match operator.token_type {
            TokenType::NotEqual => {
                return BinaryOutcome::Value(Object::Bool(!Self::is_equal(&left, &right)));
            },
            TokenType::EqualEqual => {
                return BinaryOutcome::Value(Object::Bool(Self::is_equal(&left, &right)));
            },
            _ => {},
        }
        match (left, right) {
            (Object::Num(a), Object::Num(b)) => match operator.token_type {
                TokenType::Greater => BinaryOutcome::Value(Object::Bool(double_less(b, a))),
                TokenType::GreaterEqual => BinaryOutcome::Value(
                    Object::Bool(double_less_equal(b, a)),
                ),
                TokenType::Less => BinaryOutcome::Value(Object::Bool(double_less(a, b))),
                TokenType::LessEqual => BinaryOutcome::Value(Object::Bool(double_less_equal(a, b))),
                TokenType::Minus => BinaryOutcome::Arithmetic(Arithmetic::Subtract, a, b),
                TokenType::Plus => BinaryOutcome::Arithmetic(Arithmetic::Add, a, b),
                TokenType::Slash => BinaryOutcome::Arithmetic(Arithmetic::Divide, a, b),
                TokenType::Asterisk => BinaryOutcome::Arithmetic(Arithmetic::Multiply, a, b),
                _ => BinaryOutcome::Failure(
                    RuntimeError {
                        line: operator.line,
                        message: String::from_str("Could not parse binary operator for number."),
                    },
                ),
            },
            (Object::Str(a), Object::Str(b)) => match operator.token_type {
                TokenType::Plus => {
                    let mut joined = a;
                    joined.append(b.as_str());
                    BinaryOutcome::Value(Object::Str(joined))
                },
                _ => BinaryOutcome::Failure(
                    RuntimeError {
                        line: operator.line,
                        message: String::from_str("Could not parse binary operator for string."),
                    },
                ),
            },
            _ => BinaryOutcome::Failure(
                RuntimeError {
                    line: operator.line,
                    message: String::from_str(
                        "Tried to perform binary operation on invalid expressions!",
                    ),
                },
            ),
        }
    }

    fn is_truthy(object: &Object) -> (r: bool)
        ensures
            r == truthy(object@),
    {
        object.is_truthy()
    }

    fn is_equal(left: &Object, right: &Object) -> (r: bool)
        ensures
            r == objects_equal(left@, right@),
    {
        left.is_equal(right)
    }
}

/// What a binary operator gave in exec code.
enum BinaryOutcome {
    Value(Object),
    Failure(RuntimeError),
    Arithmetic(Arithmetic, u64, u64),
}

/// The characters of `s` in reverse order.
pub fn reversed(s: &String) -> (r: String)
    ensures
        r@ == s@.reverse(),
{
    let text = s.as_str();
    let n = text.unicode_len();
    let mut r = String::new();
    let mut i: usize = n;
    while i > 0
        invariant
            n == s@.len(),
            text@ == s@,
            i <= n,
            r@ == s@.subrange(i as int, n as int).reverse(),
        decreases i,
    {
        let ghost prior = r@;
        r.append(text.substring_char(i - 1, i));
        i -= 1;
        assert(r@ =~= s@.subrange(i as int, n as int).reverse());
    }
    assert(s@.subrange(0, n as int) =~= s@);
    r
}

} // verus!

verus! {

/// The number of binary operators in an expression: a bound on the arithmetic it can need.
pub open spec fn binary_count(e: Expression) -> nat
    decreases e,
{
    match e {
        Expression::Literal { .. } => 0,
        Expression::Variable { .. } => 0,
        Expression::Grouping { expression } => binary_count(*expression),
        Expression::Assign { value, .. } => binary_count(*value),
        Expression::Unary { right, .. } => binary_count(*right),
        Expression::Logical { left, right, .. } => binary_count(*left) + binary_count(*right),
        Expression::Binary { left, right, .. } => binary_count(*left) + binary_count(*right) + 1,
    }
}

/// An evaluation uses arithmetic results in order and never more than it was given; it stops
/// only once it has used all of them, and only at an operator it has not yet passed, so it
/// needs at most one result per binary operator.
pub proof fn lemma_eval_uses_results_in_order(
    e: Expression,
    scopes: Seq<Scope>,
    results: Seq<u64>,
    used: nat,
)
    requires
        used <= results.len(),
    ensures
        used <= eval(e, scopes, results, used).used <= results.len(),
        eval(e, scopes, results, used).used <= used + binary_count(e),
        eval(e, scopes, results, used).outcome is Stuck ==> eval(e, scopes, results, used).used
            == results.len() && eval(e, scopes, results, used).used + 1 <= used + binary_count(e),
    decreases e,
{
    match e {
        Expression::Literal { .. } => {},
        Expression::Variable { .. } => {},
        Expression::Grouping { expression } => {
            lemma_eval_uses_results_in_order(*expression, scopes, results, used);
        },
        Expression::Assign { value, .. } => {
            lemma_eval_uses_results_in_order(*value, scopes, results, used);
        },
        Expression::Unary { right, .. } => {
            lemma_eval_uses_results_in_order(*right, scopes, results, used);
        },
        Expression::Logical { left, right, .. } => {
            lemma_eval_uses_results_in_order(*left, scopes, results, used);
            let l = eval(*left, scopes, results, used);
            lemma_eval_uses_results_in_order(*right, l.scopes, results, l.used);
        },
        Expression::Binary { left, right, .. } => {
            lemma_eval_uses_results_in_order(*left, scopes, results, used);
            let l = eval(*left, scopes, results, used);
            lemma_eval_uses_results_in_order(*right, l.scopes, results, l.used);
        },
    }
}

/// Evaluating again with more arithmetic results than a finished evaluation used gives the
/// same evaluation: so the caller may add the result that was asked for and evaluate anew.
pub proof fn lemma_eval_extends(
    e: Expression,
    scopes: Seq<Scope>,
    results: Seq<u64>,
    extra: Seq<u64>,
    used: nat,
)
    requires
        used <= results.len(),
        !(eval(e, scopes, results, used).outcome is Stuck),
    ensures
        eval(e, scopes, results + extra, used) == eval(e, scopes, results, used),
    decreases e,
{
    let more = results + extra;
    match e {
        Expression::Literal { .. } => {},
        Expression::Variable { .. } => {},
        Expression::Grouping { expression } => {
            lemma_eval_extends(*expression, scopes, results, extra, used);
        },
        Expression::Assign { value, .. } => {
            lemma_eval_extends(*value, scopes, results, extra, used);
        },
        Expression::Unary { right, .. } => {
            lemma_eval_extends(*right, scopes, results, extra, used);
        },
        Expression::Logical { left, right, .. } => {
            lemma_eval_extends(*left, scopes, results, extra, used);
            lemma_eval_uses_results_in_order(*left, scopes, results, used);
            let l = eval(*left, scopes, results, used);
            if l.outcome is Value && !(eval(*right, l.scopes, results, l.used).outcome is Stuck) {
                lemma_eval_extends(*right, l.scopes, results, extra, l.used);
            }
        },
        Expression::Binary { left, right, .. } => {
            lemma_eval_extends(*left, scopes, results, extra, used);
            lemma_eval_uses_results_in_order(*left, scopes, results, used);
            let l = eval(*left, scopes, results, used);
            if l.outcome is Value {
                lemma_eval_extends(*right, l.scopes, results, extra, l.used);
                lemma_eval_uses_results_in_order(*right, l.scopes, results, l.used);
                let r = eval(*right, l.scopes, results, l.used);
                if r.used < results.len() {
                    assert(more[r.used as int] == results[r.used as int]);
                }
            }
        },
    }
}

/// `-` undoes itself: on a number it flips the sign bit back, on a string it reverses the
/// reversal.
pub proof fn lemma_negation_involutive(value: ObjectV)
    requires
        unary_result(TokenType::Minus, value) is Ok,
    ensures
        unary_result(TokenType::Minus, unary_result(TokenType::Minus, value)->Ok_0) == Ok::<
            ObjectV,
            Seq<char>,
        >(value),
{
    match value {
        ObjectV::Str(s) => {
            assert(s.reverse().reverse() =~= s);
        },
        _ => {},
    }
}

/// `!=` answers the opposite of `==`, on any two values.
pub proof fn lemma_not_equal_negates_equal(left: ObjectV, right: ObjectV)
    ensures
        binary_step(TokenType::EqualEqual, left, right) matches BinaryStep::Value(ObjectV::Bool(
            same,
        )) && binary_step(TokenType::NotEqual, left, right) == BinaryStep::Value(
            ObjectV::Bool(!same),
        ),
{
}

/// `a < b` answers as `b > a`, and `a <= b` as `b >= a`.
pub proof fn lemma_comparisons_mirror(left: ObjectV, right: ObjectV)
    ensures
        binary_step(TokenType::Less, left, right) == binary_step(TokenType::Greater, right, left),
        binary_step(TokenType::LessEqual, left, right) == binary_step(
            TokenType::GreaterEqual,
            right,
            left,
        ),
{
}

/// `and` is true exactly when both operands are: when the left one is not, it is the value
/// of the whole, else the right one is.
pub proof fn lemma_and_truthiness(
    left: Expression,
    operator: Token,
    right: Expression,
    scopes: Seq<Scope>,
    results: Seq<u64>,
    used: nat,
)
    requires
        operator.token_type == TokenType::And,
        eval(left, scopes, results, used).outcome is Value,
    ensures
        ({
            let l = eval(left, scopes, results, used);
            let whole = eval(
                Expression::Logical { left: Box::new(left), operator, right: Box::new(right) },
                scopes,
                results,
                used,
            );
            if truthy(l.outcome->Value_0) {
                whole == eval(right, l.scopes, results, l.used)
            } else {
                whole == l
            }
        }),
{
}

/// `or` is true exactly when one operand is: when the left one is, it is the value of the
/// whole, else the right one is.
pub proof fn lemma_or_truthiness(
    left: Expression,
    operator: Token,
    right: Expression,
    scopes: Seq<Scope>,
    results: Seq<u64>,
    used: nat,
)
    requires
        operator.token_type == TokenType::Or,
        eval(left, scopes, results, used).outcome is Value,
    ensures
        ({
            let l = eval(left, scopes, results, used);
            let whole = eval(
                Expression::Logical { left: Box::new(left), operator, right: Box::new(right) },
                scopes,
                results,
                used,
            );
            if truthy(l.outcome->Value_0) {
                whole == l
            } else {
                whole == eval(right, l.scopes, results, l.used)
            }
        }),
{
}

} // verus!

verus! {

/// Whether a step gives the value `true`.
pub open spec fn gives_true(step: BinaryStep) -> bool {
    step == BinaryStep::Value(ObjectV::Bool(true))
}

/// On numbers, `>=` is `>` or `==`, and `<=` is `<` or `==`; every comparison gives a boolean.
/// On numbers that are not NaN, `>=` is the negation of `<`, `<=` that of `>`, and each
/// answers by the place of the numbers on the number line.
pub proof fn lemma_comparisons_of_numbers(a: u64, b: u64)
    ensures
        ({
            let x = ObjectV::Num(a);
            let y = ObjectV::Num(b);
            &&& binary_step(TokenType::GreaterEqual, x, y) == BinaryStep::Value(
                ObjectV::Bool(
                    gives_true(binary_step(TokenType::Greater, x, y)) || gives_true(
                        binary_step(TokenType::EqualEqual, x, y),
                    ),
                ),
            )
            &&& binary_step(TokenType::LessEqual, x, y) == BinaryStep::Value(
                ObjectV::Bool(
                    gives_true(binary_step(TokenType::Less, x, y)) || gives_true(
                        binary_step(TokenType::EqualEqual, x, y),
                    ),
                ),
            )
            &&& !is_nan(a) && !is_nan(b) ==> {
                &&& gives_true(binary_step(TokenType::GreaterEqual, x, y)) == !gives_true(
                    binary_step(TokenType::Less, x, y),
                )
                &&& gives_true(binary_step(TokenType::LessEqual, x, y)) == !gives_true(
                    binary_step(TokenType::Greater, x, y),
                )
                &&& gives_true(binary_step(TokenType::GreaterEqual, x, y)) == (order_key(a)
                    >= order_key(b))
                &&& gives_true(binary_step(TokenType::LessEqual, x, y)) == (order_key(a)
                    <= order_key(b))
                &&& gives_true(binary_step(TokenType::Greater, x, y)) == (order_key(a)
                    > order_key(b))
                &&& gives_true(binary_step(TokenType::Less, x, y)) == (order_key(a) < order_key(
                    b,
                ))
            }
        }),
{
}

} // verus!
