use vstd::prelude::*;

use crate::expression::Expression;
use crate::logger::{report_text, token_place};
use crate::object::Object;
use crate::statement::StmtV;
use crate::token::{Token, TokenType};

verus! {

/// The outcome of reading a phrase from a token position: the phrase and the position after
/// it, or the report of the error met (none for an error that is not reported) and the
/// position where reading stopped.
pub type Parsed<T> = Result<(T, int), (Option<Seq<char>>, int)>;

/// Whether a token list can be parsed: it ends with the end of input, and every string and
/// number token carries its value.
pub open spec fn tokens_wf(ts: Seq<Token>) -> bool {
    &&& ts.len() > 0
    &&& ts.last().token_type == TokenType::EOF
    &&& forall|i: int|
        0 <= i < ts.len() && (#[trigger] ts[i].token_type == TokenType::Number || ts[i].token_type
            == TokenType::String) ==> ts[i].literal is Some
}

pub open spec fn at_end(ts: Seq<Token>, i: int) -> bool {
    ts[i].token_type == TokenType::EOF
}

/// Whether the token at `i` is of kind `t` (never so at the end of input).
pub open spec fn check(ts: Seq<Token>, i: int, t: TokenType) -> bool {
    !at_end(ts, i) && ts[i].token_type == t
}

/// Whether the token at `i` is of one of the kinds `types`.
pub open spec fn matches_any(ts: Seq<Token>, i: int, types: Seq<TokenType>) -> bool {
    !at_end(ts, i) && types.contains(ts[i].token_type)
}

/// The report of an error at a token.
pub open spec fn error_report(token: Token, message: Seq<char>) -> Seq<char> {
    report_text(token.line as nat, token_place(token), message)
}

/// Reading a token of kind `t` at `i`: the position after it, or an error at `i`.
pub open spec fn consume(ts: Seq<Token>, i: int, t: TokenType, message: Seq<char>) -> Result<
    int,
    (Option<Seq<char>>, int),
> {
    if !(0 <= i < ts.len()) {
        Err((None, i))
    } else if check(ts, i, t) {
        Ok(i + 1)
    } else {
        Err((Some(error_report(ts[i], message)), i))
    }
}

/// The operators of a level of binary expressions, from the loosest (`or`) to the tightest.
pub open spec fn level_operators(level: int) -> Seq<TokenType> {
    if level == 0 {
        [TokenType::Or]@
    } else if level == 1 {
        [TokenType::And]@
    } else if level == 2 {
        [TokenType::NotEqual, TokenType::EqualEqual]@
    } else if level == 3 {
        [TokenType::Greater, TokenType::GreaterEqual, TokenType::Less, TokenType::LessEqual]@
    } else if level == 4 {
        [TokenType::Minus, TokenType::Plus]@
    } else {
        [TokenType::Slash, TokenType::Asterisk, TokenType::Mod]@
    }
}

/// The expression that joins two operands at a level: `and` and `or` are logical.
pub open spec fn combine(level: int, left: Expression, operator: Token, right: Expression) -> Expression {
    if level <= 1 {
        Expression::Logical { left: Box::new(left), operator, right: Box::new(right) }
    } else {
        Expression::Binary { left: Box::new(left), operator, right: Box::new(right) }
    }
}

/// The keywords where reading resumes after an error.
pub open spec fn is_boundary(t: TokenType) -> bool {
    t == TokenType::Var || t == TokenType::For || t == TokenType::If || t == TokenType::While
        || t == TokenType::Print
}

// ---------------------------------------------------------------------------------------------
// Expressions.
// ---------------------------------------------------------------------------------------------

pub open spec fn p_expression(ts: Seq<Token>, i: int) -> Parsed<Expression>
    decreases ts.len() - i, 42int,
{
    if !(0 <= i < ts.len()) {
        Err((None, i))
    } else {
        p_assignment(ts, i)
    }
}

/// An assignment `name = value`, or an expression of the loosest level.
pub open spec fn p_assignment(ts: Seq<Token>, i: int) -> Parsed<Expression>
    decreases ts.len() - i, 41int,
{
    if !(0 <= i < ts.len()) {
        Err((None, i))
    } else {
        match p_level(ts, i, 0) {
            Err(e) => Err(e),
            Ok((target, j)) => if !(i <= j < ts.len()) {
                Err((None, j))
            } else if matches_any(ts, j, [TokenType::Equal]@) {
                match p_assignment(ts, j + 1) {
                    Err(e) => Err(e),
                    Ok((value, k)) => match target {
                        Expression::Variable { name } => Ok(
                            (Expression::Assign { name, value: Box::new(value) }, k),
                        ),
                        _ => if 0 < k <= ts.len() {
                            Err(
                                (
                                    Some(error_report(ts[k - 1], "Invalid assignment target."@)),
                                    k,
                                ),
                            )
                        } else {
                            Err((None, k))
                        },
                    },
                }
            } else {
                Ok((target, j))
            },
        }
    }
}

/// An expression of a level of binary operators (0 for `or` up to 5 for `*`, `/` and `%`):
/// operands of the next level joined from the left.
pub open spec fn p_level(ts: Seq<Token>, i: int, level: int) -> Parsed<Expression>
    decreases ts.len() - i, 40 - 2 * level,
{
    if !(0 <= i < ts.len()) || !(0 <= level <= 5) {
        Err((None, i))
    } else {
        match p_operand(ts, i, level) {
            Err(e) => Err(e),
            Ok((left, j)) => if i <= j < ts.len() {
                p_level_rest(ts, j, left, level)
            } else {
                Err((None, j))
            },
        }
    }
}

/// An operand of a level: an expression of the next level, or a unary one below the last.
pub open spec fn p_operand(ts: Seq<Token>, i: int, level: int) -> Parsed<Expression>
    decreases ts.len() - i, 39 - 2 * level,
{
    if !(0 <= i < ts.len()) || !(0 <= level <= 5) {
        Err((None, i))
    } else if level < 5 {
        p_level(ts, i, level + 1)
    } else {
        p_unary(ts, i)
    }
}

/// Operators and operands of a level that follow `left`, from position `j`.
pub open spec fn p_level_rest(ts: Seq<Token>, j: int, left: Expression, level: int) -> Parsed<
    Expression,
>
    decreases ts.len() - j, 1int,
{
    if !(0 <= j < ts.len()) || !(0 <= level <= 5) {
        Err((None, j))
    } else if matches_any(ts, j, level_operators(level)) {
        let operator = ts[j];
        match p_operand(ts, j + 1, level) {
            Err(e) => Err(e),
            Ok((right, k)) => if j < k < ts.len() {
                p_level_rest(ts, k, combine(level, left, operator, right), level)
            } else {
                Err((None, k))
            },
        }
    } else {
        Ok((left, j))
    }
}

/// A unary expression: `!` or `-` before a unary expression, or a primary one.
pub open spec fn p_unary(ts: Seq<Token>, i: int) -> Parsed<Expression>
    decreases ts.len() - i, 11int,
{
    if !(0 <= i < ts.len()) {
        Err((None, i))
    } else if matches_any(ts, i, [TokenType::Not, TokenType::Minus]@) {
        let operator = ts[i];
        match p_unary(ts, i + 1) {
            Err(e) => Err(e),
            Ok((right, j)) => Ok((Expression::Unary { operator, right: Box::new(right) }, j)),
        }
    } else {
        p_primary(ts, i)
    }
}

/// A literal, a variable or an expression in parentheses.
pub open spec fn p_primary(ts: Seq<Token>, i: int) -> Parsed<Expression>
    decreases ts.len() - i, 10int,
{
    if !(0 <= i < ts.len()) {
        Err((None, i))
    } else if matches_any(ts, i, [TokenType::False]@) {
        Ok((Expression::Literal { value: Object::Bool(false) }, i + 1))
    } else if matches_any(ts, i, [TokenType::True]@) {
        Ok((Expression::Literal { value: Object::Bool(true) }, i + 1))
    } else if matches_any(ts, i, [TokenType::Null]@) {
        Ok((Expression::Literal { value: Object::Null }, i + 1))
    } else if matches_any(ts, i, [TokenType::Number, TokenType::String]@) {
        Ok((Expression::Literal { value: ts[i].literal->0 }, i + 1))
    } else if matches_any(ts, i, [TokenType::Identifier]@) {
        Ok((Expression::Variable { name: ts[i] }, i + 1))
    } else if matches_any(ts, i, [TokenType::LeftParen]@) {
        match p_expression(ts, i + 1) {
            Err(e) => Err(e),
            Ok((inner, j)) => match consume(
                ts,
                j,
                TokenType::RightParen,
                "Expected ')' after expression."@,
            ) {
                Err(e) => Err(e),
                Ok(k) => Ok((Expression::Grouping { expression: Box::new(inner) }, k)),
            },
        }
    } else {
        Err((Some(error_report(ts[i], "Expected expression."@)), i))
    }
}

// ---------------------------------------------------------------------------------------------
// Statements.
// ---------------------------------------------------------------------------------------------

/// A declaration: `var` and a variable declaration, or a statement.
pub open spec fn p_declaration(ts: Seq<Token>, i: int) -> Parsed<StmtV>
    decreases ts.len() - i, 47int,
{
    if !(0 <= i < ts.len()) {
        Err((None, i))
    } else if matches_any(ts, i, [TokenType::Var]@) {
        p_var_declaration(ts, i + 1)
    } else {
        p_statement(ts, i)
    }
}

/// The rest of a variable declaration: a name, optionally `=` and an initializer, and `;`.
pub open spec fn p_var_declaration(ts: Seq<Token>, i: int) -> Parsed<StmtV>
    decreases ts.len() - i, 46int,
{
    if !(0 <= i < ts.len()) {
        Err((None, i))
    } else {
        match consume(ts, i, TokenType::Identifier, "Expected a variable name."@) {
            Err(e) => Err(e),
            Ok(j) => {
                let name = ts[i];
                let init: Parsed<Option<Expression>> = if 0 <= j < ts.len() && matches_any(
                    ts,
                    j,
                    [TokenType::Equal]@,
                ) {
                    match p_expression(ts, j + 1) {
                        Err(e) => Err(e),
                        Ok((e, k)) => Ok((Some(e), k)),
                    }
                } else {
                    Ok((None, j))
                };
                match init {
                    Err(e) => Err(e),
                    Ok((initializer, k)) => match consume(
                        ts,
                        k,
                        TokenType::Semicolon,
                        "Expected ';' after variable declaration."@,
                    ) {
                        Err(e) => Err(e),
                        Ok(m) => Ok((StmtV::Var { name, initializer }, m)),
                    },
                }
            },
        }
    }
}

/// A statement, chosen by its first token; an expression statement where none matches.
pub open spec fn p_statement(ts: Seq<Token>, i: int) -> Parsed<StmtV>
    decreases ts.len() - i, 45int,
{
    if !(0 <= i < ts.len()) {
        Err((None, i))
    } else if matches_any(ts, i, [TokenType::Print]@) {
        p_print_statement(ts, i + 1)
    } else if matches_any(ts, i, [TokenType::ReadInput]@) {
        p_input_statement(ts, i + 1)
    } else if matches_any(ts, i, [TokenType::If]@) {
        p_if_statement(ts, i + 1)
    } else if matches_any(ts, i, [TokenType::While]@) {
        p_while_statement(ts, i + 1)
    } else if matches_any(ts, i, [TokenType::For]@) {
        p_for_statement(ts, i + 1)
    } else if matches_any(ts, i, [TokenType::LeftBrace]@) {
        p_block_items(ts, i + 1, Seq::empty())
    } else {
        p_expression_statement(ts, i)
    }
}

/// The rest of `print`: an expression and `;`.
pub open spec fn p_print_statement(ts: Seq<Token>, i: int) -> Parsed<StmtV>
    decreases ts.len() - i, 44int,
{
    match p_expression(ts, i) {
        Err(e) => Err(e),
        Ok((value, j)) => match consume(
            ts,
            j,
            TokenType::Semicolon,
            "Expected ';' after statement."@,
        ) {
            Err(e) => Err(e),
            Ok(k) => Ok((StmtV::Print(value), k)),
        },
    }
}

/// The rest of `read_input`: a variable and `;`. Any other target fails without a report.
pub open spec fn p_input_statement(ts: Seq<Token>, i: int) -> Parsed<StmtV>
    decreases ts.len() - i, 44int,
{
    match p_expression(ts, i) {
        Err(e) => Err(e),
        Ok((target, j)) => match consume(
            ts,
            j,
            TokenType::Semicolon,
            "Expected ';' after statement."@,
        ) {
            Err(e) => Err(e),
            Ok(k) => match target {
                Expression::Variable { name } => Ok((StmtV::ReadInput { target_var: name }, k)),
                _ => Err((None, k)),
            },
        },
    }
}

/// The rest of `if`: a condition in parentheses, a statement, and optionally `else` and a
/// statement.
pub open spec fn p_if_statement(ts: Seq<Token>, i: int) -> Parsed<StmtV>
    decreases ts.len() - i, 44int,
{
    match consume(ts, i, TokenType::LeftParen, "Expected '(' after 'if'."@) {
        Err(e) => Err(e),
        Ok(j) => match p_expression(ts, j) {
            Err(e) => Err(e),
            Ok((condition, k)) => match consume(
                ts,
                k,
                TokenType::RightParen,
                "Expected ')' after condition."@,
            ) {
                Err(e) => Err(e),
                Ok(m) => if !(i < m) {
                    Err((None, m))
                } else {
                    match p_statement(ts, m) {
                        Err(e) => Err(e),
                        Ok((then_branch, n)) => if !(m <= n < ts.len()) {
                            Err((None, n))
                        } else if matches_any(ts, n, [TokenType::Else]@) {
                            match p_statement(ts, n + 1) {
                                Err(e) => Err(e),
                                Ok((else_branch, o)) => Ok(
                                    (
                                        StmtV::If {
                                            condition,
                                            then_branch: Box::new(then_branch),
                                            else_branch: Some(Box::new(else_branch)),
                                        },
                                        o,
                                    ),
                                ),
                            }
                        } else {
                            Ok(
                                (
                                    StmtV::If {
                                        condition,
                                        then_branch: Box::new(then_branch),
                                        else_branch: None,
                                    },
                                    n,
                                ),
                            )
                        },
                    }
                },
            },
        },
    }
}

/// The rest of `while`: a condition in parentheses and a statement.
pub open spec fn p_while_statement(ts: Seq<Token>, i: int) -> Parsed<StmtV>
    decreases ts.len() - i, 44int,
{
    match consume(ts, i, TokenType::LeftParen, "Expected '(' after 'while'."@) {
        Err(e) => Err(e),
        Ok(j) => match p_expression(ts, j) {
            Err(e) => Err(e),
            Ok((condition, k)) => match consume(
                ts,
                k,
                TokenType::RightParen,
                "Expected ')' after condition."@,
            ) {
                Err(e) => Err(e),
                Ok(m) => if !(i < m) {
                    Err((None, m))
                } else {
                    match p_statement(ts, m) {
                        Err(e) => Err(e),
                        Ok((body, n)) => Ok((StmtV::While { condition, body: Box::new(body) }, n)),
                    }
                },
            },
        },
    }
}

/// The statement a `for` loop stands for: the initializer, then a `while` loop over the
/// body followed by the increment. Each of the three parts may be left out; without a
/// condition the loop runs as long as `true` holds.
pub open spec fn desugar_for(
    initializer: Option<StmtV>,
    condition: Option<Expression>,
    increment: Option<Expression>,
    body: StmtV,
) -> StmtV {
    let with_increment = match increment {
        Some(e) => StmtV::Block(seq![body, StmtV::Expression(e)]),
        None => body,
    };
    let looped = match condition {
        Some(c) => StmtV::While { condition: c, body: Box::new(with_increment) },
        None => StmtV::While {
            condition: Expression::Literal { value: Object::Bool(true) },
            body: Box::new(with_increment),
        },
    };
    match initializer {
        Some(s) => StmtV::Block(seq![s, looped]),
        None => looped,
    }
}

/// The initializer of a `for` loop: a variable declaration, nothing (just `;`), or an
/// expression statement.
pub open spec fn p_for_initializer(ts: Seq<Token>, j: int) -> Parsed<Option<StmtV>>
    decreases ts.len() - j, 47int,
{
    if !(0 <= j < ts.len()) {
        Err((None, j))
    } else if matches_any(ts, j, [TokenType::Var]@) {
        match p_var_declaration(ts, j + 1) {
            Err(e) => Err(e),
            Ok((s, k)) => Ok((Some(s), k)),
        }
    } else if matches_any(ts, j, [TokenType::Semicolon]@) {
        Ok((None, j + 1))
    } else {
        match p_expression_statement(ts, j) {
            Err(e) => Err(e),
            Ok((s, k)) => Ok((Some(s), k)),
        }
    }
}

/// An optional clause of a `for` loop: nothing where the token at `k` is `end`, else an
/// expression.
pub open spec fn p_for_clause(ts: Seq<Token>, k: int, end: TokenType) -> Parsed<Option<Expression>>
    decreases ts.len() - k, 43int,
{
    if !(0 <= k < ts.len()) {
        Err((None, k))
    } else if !check(ts, k, end) {
        match p_expression(ts, k) {
            Err(e) => Err(e),
            Ok((c, l)) => Ok((Some(c), l)),
        }
    } else {
        Ok((None, k))
    }
}

/// The rest of `for`: in parentheses an initializer, an optional condition and `;`, and an
/// optional increment; then the body.
pub open spec fn p_for_statement(ts: Seq<Token>, i: int) -> Parsed<StmtV>
    decreases ts.len() - i, 44int,
{
    match consume(ts, i, TokenType::LeftParen, "Expected '(' after 'for'."@) {
        Err(e) => Err(e),
        Ok(j) => if !(i < j < ts.len()) {
            Err((None, j))
        } else {
            match p_for_initializer(ts, j) {
                Err(e) => Err(e),
                Ok((initializer, k)) => if !(j <= k < ts.len()) {
                    Err((None, k))
                } else {
                    match p_for_clause(ts, k, TokenType::Semicolon) {
                        Err(e) => Err(e),
                        Ok((condition, l)) => match consume(
                            ts,
                            l,
                            TokenType::Semicolon,
                            "Expected ';' after loop condition."@,
                        ) {
                            Err(e) => Err(e),
                            Ok(m) => if !(j < m < ts.len()) {
                                Err((None, m))
                            } else {
                                match p_for_clause(ts, m, TokenType::RightParen) {
                                    Err(e) => Err(e),
                                    Ok((increment, n)) => match consume(
                                        ts,
                                        n,
                                        TokenType::RightParen,
                                        "Expected ')' after for clauses."@,
                                    ) {
                                        Err(e) => Err(e),
                                        Ok(o) => if !(j < o) {
                                            Err((None, o))
                                        } else {
                                            match p_statement(ts, o) {
                                                Err(e) => Err(e),
                                                Ok((body, q)) => Ok(
                                                    (
                                                        desugar_for(
                                                            initializer,
                                                            condition,
                                                            increment,
                                                            body,
                                                        ),
                                                        q,
                                                    ),
                                                ),
                                            }
                                        },
                                    },
                                }
                            },
                        },
                    }
                },
            }
        },
    }
}

/// The declarations of a block up to `}`, after those already read (`items`).
pub open spec fn p_block_items(ts: Seq<Token>, i: int, items: Seq<StmtV>) -> Parsed<StmtV>
    decreases ts.len() - i, 48int,
{
    if !(0 <= i < ts.len()) {
        Err((None, i))
    } else if !check(ts, i, TokenType::RightBrace) && !at_end(ts, i) {
        match p_declaration(ts, i) {
            Err(e) => Err(e),
            Ok((s, j)) => if i < j < ts.len() {
                p_block_items(ts, j, items.push(s))
            } else {
                Err((None, j))
            },
        }
    } else {
        match consume(ts, i, TokenType::RightBrace, "Expected '}' after block."@) {
            Err(e) => Err(e),
            Ok(k) => Ok((StmtV::Block(items), k)),
        }
    }
}

/// An expression and `;`.
pub open spec fn p_expression_statement(ts: Seq<Token>, i: int) -> Parsed<StmtV>
    decreases ts.len() - i, 43int,
{
    match p_expression(ts, i) {
        Err(e) => Err(e),
        Ok((value, j)) => match consume(
            ts,
            j,
            TokenType::Semicolon,
            "Expected ';' after statement."@,
        ) {
            Err(e) => Err(e),
            Ok(k) => Ok((StmtV::Expression(value), k)),
        },
    }
}

// ---------------------------------------------------------------------------------------------
// Programs.
// ---------------------------------------------------------------------------------------------

/// Where reading resumes after an error at `j`: past the token there, then on to just after
/// a `;` or to a keyword that starts a statement, or to the end of input.
pub open spec fn synchronized(ts: Seq<Token>, j: int) -> int {
    if !(0 <= j < ts.len()) {
        j
    } else if at_end(ts, j) {
        j
    } else {
        sync_from(ts, j + 1)
    }
}

pub open spec fn sync_from(ts: Seq<Token>, a: int) -> int
    decreases ts.len() - a,
{
    if !(0 < a < ts.len()) {
        a
    } else if at_end(ts, a) {
        a
    } else if ts[a - 1].token_type == TokenType::Semicolon {
        a
    } else if is_boundary(ts[a].token_type) {
        a
    } else {
        sync_from(ts, a + 1)
    }
}

/// The statements read from position `i` on, and the reports of the errors met; a
/// declaration that fails is dropped and reading resumes where `synchronized` says.
#[verifier::opaque]
pub open spec fn p_program(ts: Seq<Token>, i: int) -> (Seq<StmtV>, Seq<Seq<char>>)
    decreases ts.len() - i,
{
    if !(0 <= i < ts.len()) || at_end(ts, i) {
        (Seq::empty(), Seq::empty())
    } else {
        match p_declaration(ts, i) {
            Ok((s, j)) => if i < j <= ts.len() {
                let rest = p_program(ts, j);
                (seq![s] + rest.0, rest.1)
            } else {
                (Seq::empty(), Seq::empty())
            },
            Err((report, j)) => {
                let k = synchronized(ts, j);
                if i < k <= ts.len() {
                    let rest = p_program(ts, k);
                    (
                        rest.0,
                        match report {
                            Some(m) => seq![m] + rest.1,
                            None => rest.1,
                        },
                    )
                } else {
                    (Seq::empty(), Seq::empty())
                }
            },
        }
    }
}

} // verus!

verus! {

/// The items of a block are declarations, read as the top level reads them: where a
/// declaration (a `var` declaration among them) reads as `s` up to `j`, a program read from
/// there begins with `s` and goes on at `j`, and a block read from there takes `s` as its
/// next item and goes on at `j`; where it fails, the block fails the same way.
pub proof fn lemma_block_items_are_declarations(ts: Seq<Token>, i: int, items: Seq<StmtV>)
    requires
        0 <= i < ts.len(),
        !check(ts, i, TokenType::RightBrace),
        !at_end(ts, i),
    ensures
        match p_declaration(ts, i) {
            Ok((s, j)) => i < j < ts.len() ==> {
                &&& p_block_items(ts, i, items) == p_block_items(ts, j, items.push(s))
                &&& p_program(ts, i).0 == seq![s] + p_program(ts, j).0
                &&& p_program(ts, i).1 == p_program(ts, j).1
            },
            Err(e) => p_block_items(ts, i, items) == Err::<(StmtV, int), _>(e),
        },
        check(ts, i, TokenType::Var) ==> match p_var_declaration(ts, i + 1) {
            Ok((s, j)) => i < j < ts.len() ==> p_block_items(ts, i, items) == p_block_items(
                ts,
                j,
                items.push(s),
            ),
            Err(e) => p_block_items(ts, i, items) == Err::<(StmtV, int), _>(e),
        },
{
    reveal_with_fuel(p_program, 1);
    if check(ts, i, TokenType::Var) {
        assert([TokenType::Var]@.contains(TokenType::Var)) by {
            assert([TokenType::Var]@[0] == TokenType::Var);
        }
        assert(matches_any(ts, i, [TokenType::Var]@));
    }
}

} // verus!
