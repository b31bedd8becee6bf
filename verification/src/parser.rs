use vstd::prelude::*;

use crate::expression::Expression;
use crate::grammar::{
    at_end, check, consume, desugar_for, error_report, matches_any, p_assignment, p_block_items, p_declaration, p_expression,
    p_expression_statement, p_for_clause, p_for_initializer, p_for_statement, p_if_statement, p_input_statement, p_level,
    p_level_rest, p_operand, p_primary, p_print_statement, p_program, p_statement, p_unary,
    p_var_declaration, p_while_statement, sync_from, synchronized, tokens_wf, Parsed,
};
use crate::logger::Logger;
use crate::object::Object;
use crate::scanner::string_views;
use crate::statement::{Statement, StmtV};
use crate::token::{Token, TokenType};

verus! {

/// How an exec result stands to what the grammar says of the same tokens: the same phrase
/// and position, or a failure at the same position whose report (if any) was logged.
pub open spec fn agrees<T>(
    r: Result<T, ()>,
    p: Parsed<T>,
    current: int,
    before: Seq<Seq<char>>,
    after: Seq<Seq<char>>,
) -> bool {
    match p {
        Ok((v, j)) => r == Ok::<T, ()>(v) && current == j && after == before,
        Err((report, j)) => r is Err && current == j && after == match report {
            Some(m) => before.push(m),
            None => before,
        },
    }
}

pub open spec fn stmt_result_view(r: Result<Statement, ()>) -> Result<StmtV, ()> {
    match r {
        Ok(s) => Ok(s.view_stmt()),
        Err(e) => Err(e),
    }
}

/// What reading a declaration at `i` gives, kept behind a name so that the reading of a
/// whole program does not unfold the grammar.
#[verifier::opaque]
spec fn declared(ts: Seq<Token>, i: int) -> Parsed<StmtV> {
    p_declaration(ts, i)
}

proof fn lemma_sync_from_advances(ts: Seq<Token>, a: int)
    ensures
        sync_from(ts, a) >= a,
    decreases ts.len() - a,
{
    if 0 < a < ts.len() && !at_end(ts, a) && ts[a - 1].token_type != TokenType::Semicolon
        && !crate::grammar::is_boundary(ts[a].token_type) {
        lemma_sync_from_advances(ts, a + 1);
    }
}

proof fn lemma_program_end(ts: Seq<Token>, i: int)
    requires
        0 <= i < ts.len(),
        at_end(ts, i),
    ensures
        p_program(ts, i).0 == Seq::<StmtV>::empty(),
        p_program(ts, i).1 == Seq::<Seq<char>>::empty(),
{
    reveal_with_fuel(p_program, 1);
}

proof fn lemma_program_ok(ts: Seq<Token>, i: int, s: StmtV, j: int)
    requires
        0 <= i < ts.len(),
        !at_end(ts, i),
        declared(ts, i) == Parsed::<StmtV>::Ok((s, j)),
        i < j < ts.len(),
    ensures
        p_program(ts, i) == (seq![s] + p_program(ts, j).0, p_program(ts, j).1),
{
    reveal_with_fuel(p_program, 1);
    reveal(declared);
}

proof fn lemma_program_err(ts: Seq<Token>, i: int, j: int)
    requires
        0 <= i < ts.len(),
        !at_end(ts, i),
        declared(ts, i) is Err,
        declared(ts, i)->Err_0.1 == j,
        i <= j < ts.len(),
        i < synchronized(ts, j) < ts.len(),
    ensures
        p_program(ts, i) == (
            p_program(ts, synchronized(ts, j)).0,
            match declared(ts, i)->Err_0.0 {
                Some(m) => seq![m] + p_program(ts, synchronized(ts, j)).1,
                None => p_program(ts, synchronized(ts, j)).1,
            },
        ),
{
    reveal_with_fuel(p_program, 1);
    reveal(declared);
}

/// Reads statements from tokens, by recursive descent.
pub struct Parser {
    tokens: Vec<Token>,
    current: usize,
    errors: Vec<String>,
}

impl Parser {
    /// The parser reads a well-formed token list and stands inside it.
    pub closed spec fn wf(&self) -> bool {
        tokens_wf(self.tokens@) && self.current < self.tokens@.len()
    }

    closed spec fn reports(&self) -> Seq<Seq<char>> {
        string_views(self.errors@)
    }

    /// The tokens the parser holds.
    pub closed spec fn tokens_held(&self) -> Seq<Token> {
        self.tokens@
    }

    /// The index of the token the parser stands at.
    pub closed spec fn position(&self) -> nat {
        self.current as nat
    }

    /// The error reports made so far.
    pub closed spec fn reports_made(&self) -> Seq<Seq<char>> {
        self.reports()
    }

    /// A parser with nothing to read yet; `parse` hands it its tokens.
    pub fn new() -> (r: Self)
        ensures
            r.tokens_held() == Seq::<Token>::empty(),
            r.position() == 0,
            r.reports_made() == Seq::<Seq<char>>::empty(),
    {
        Parser { tokens: Vec::new(), current: 0, errors: Vec::new() }
    }

    /// Reads the statements of `tokens`. A declaration with an error is dropped and reading
    /// goes on after it; the result holds the statements read and the reports of the errors.
    /// Parsing never fails as a whole: afterwards the parser holds `tokens` and stands at the
    /// end of input, which is the last token where no other end-of-input token comes before it.
    pub fn parse(&mut self, tokens: Vec<Token>) -> (r: (Vec<Statement>, Vec<String>))
        requires
            tokens_wf(tokens@),
        ensures
            Statement::view_all(r.0@) == p_program(tokens@, 0).0,
            string_views(r.1@) == p_program(tokens@, 0).1,
            final(self).tokens_held() == tokens@,
            final(self).position() < tokens@.len(),
            at_end(tokens@, final(self).position() as int),
            (forall|i: int| 0 <= i < tokens@.len() - 1 ==> !at_end(tokens@, i))
                ==> final(self).position() == tokens@.len() - 1,
            final(self).reports_made() == Seq::<Seq<char>>::empty(),
    {
        let ghost ts = tokens@;
        self.tokens = tokens;
        self.current = 0;
        self.errors = Vec::new();
        let mut statements: Vec<Statement> = Vec::new();
        assert(Statement::view_all(statements@) + p_program(ts, 0).0 =~= p_program(ts, 0).0);
        assert(self.reports() + p_program(ts, 0).1 =~= p_program(ts, 0).1);
        while !self.is_at_end()
            invariant
                self.wf(),
                self.tokens@ == ts,
                Statement::view_all(statements@) + p_program(ts, self.current as int).0
                    == p_program(ts, 0).0,
                self.reports() + p_program(ts, self.current as int).1 == p_program(ts, 0).1,
            decreases ts.len() - self.current,
        {
            let ghost i = self.current as int;
            let ghost before = self.reports();
            let ghost prior = Statement::view_all(statements@);
            let result = self.next_declaration();
            match result {
                Ok(statement) => {
                    let ghost s = statement.view_stmt();
                    let ghost v = statements@;
                    statements.push(statement);
                    proof {
                        lemma_program_ok(ts, i, s, self.current as int);
                        assert(Statement::view_all(statements@) =~= prior.push(s));
                        assert(Statement::view_all(statements@) + p_program(ts, self.current as int).0
                            =~= prior + p_program(ts, i).0);
                    }
                },
                Err(_) => {
                    let ghost j = self.current as int;
                    let ghost after_error = self.reports();
                    self.synchronize();
                    proof {
                        lemma_program_err(ts, i, j);
                        let rest = p_program(ts, self.current as int);
                        assert(self.reports() + rest.1 =~= before + p_program(ts, i).1);
                    }
                },
            }
        }
        proof {
            lemma_program_end(ts, self.current as int);
        }
        let mut reports = Vec::new();
        std::mem::swap(&mut reports, &mut self.errors);
        assert(Statement::view_all(statements@) =~= p_program(ts, 0).0);
        assert(string_views(reports@) =~= p_program(ts, 0).1);
        assert(self.reports() =~= Seq::<Seq<char>>::empty());
        (statements, reports)
    }

    fn next_declaration(&mut self) -> (r: Result<Statement, ()>)
        requires
            old(self).wf(),
        ensures
            final(self).wf(),
            final(self).tokens == old(self).tokens,
            final(self).current >= old(self).current,
            r is Ok ==> final(self).current > old(self).current,
            agrees(
                stmt_result_view(r),
                declared(old(self).tokens@, old(self).current as int),
                final(self).current as int,
                old(self).reports(),
                final(self).reports(),
            ),
    {
        reveal(declared);
        self.declaration()
    }

    fn declaration(&mut self) -> (r: Result<Statement, ()>)
        requires
            old(self).wf(),
        ensures
            final(self).wf(),
            final(self).tokens == old(self).tokens,
            final(self).current >= old(self).current,
            r is Ok ==> final(self).current > old(self).current,
            agrees(
                stmt_result_view(r),
                p_declaration(old(self).tokens@, old(self).current as int),
                final(self).current as int,
                old(self).reports(),
                final(self).reports(),
            ),
        decreases old(self).tokens@.len() - old(self).current, 47int,
    {
        if self.match_next(&[TokenType::Var]) {
            self.var_declaration()
        } else {
            self.statement()
        }
    }

    fn var_declaration(&mut self) -> (r: Result<Statement, ()>)
        requires
            old(self).wf(),
        ensures
            final(self).wf(),
            final(self).tokens == old(self).tokens,
            final(self).current >= old(self).current,
            r is Ok ==> final(self).current > old(self).current,
            agrees(
                stmt_result_view(r),
                p_var_declaration(old(self).tokens@, old(self).current as int),
                final(self).current as int,
                old(self).reports(),
                final(self).reports(),
            ),
        decreases old(self).tokens@.len() - old(self).current, 46int,
    {
        let ghost ts = self.tokens@;
        let ghost i = self.current as int;
        self.consume(TokenType::Identifier, "Expected a variable name.")?;
        let name = self.previous().clone();
        let mut initializer = None;
        if self.match_next(&[TokenType::Equal]) {
            initializer = Some(self.expression()?);
        }
        self.consume(TokenType::Semicolon, "Expected ';' after variable declaration.")?;
        Ok(Statement::var(name, initializer))
    }

    fn statement(&mut self) -> (r: Result<Statement, ()>)
        requires
            old(self).wf(),
        ensures
            final(self).wf(),
            final(self).tokens == old(self).tokens,
            final(self).current >= old(self).current,
            r is Ok ==> final(self).current > old(self).current,
            agrees(
                stmt_result_view(r),
                p_statement(old(self).tokens@, old(self).current as int),
                final(self).current as int,
                old(self).reports(),
                final(self).reports(),
            ),
        decreases old(self).tokens@.len() - old(self).current, 45int,
    {
        if self.match_next(&[TokenType::Print]) {
            self.print_statement()
        } else if self.match_next(&[TokenType::ReadInput]) {
            self.input_statement()
        } else if self.match_next(&[TokenType::If]) {
            self.if_statement()
        } else if self.match_next(&[TokenType::While]) {
            self.while_statement()
        } else if self.match_next(&[TokenType::For]) {
            self.for_statement()
        } else if self.match_next(&[TokenType::LeftBrace]) {
            self.block_statement()
        } else {
            self.expression_statement()
        }
    }

    fn print_statement(&mut self) -> (r: Result<Statement, ()>)
        requires
            old(self).wf(),
        ensures
            final(self).wf(),
            final(self).tokens == old(self).tokens,
            final(self).current >= old(self).current,
            r is Ok ==> final(self).current > old(self).current,
            agrees(
                stmt_result_view(r),
                p_print_statement(old(self).tokens@, old(self).current as int),
                final(self).current as int,
                old(self).reports(),
                final(self).reports(),
            ),
        decreases old(self).tokens@.len() - old(self).current, 44int,
    {
        let value = self.expression()?;
        self.consume(TokenType::Semicolon, "Expected ';' after statement.")?;
        Ok(Statement::Print(value))
    }

    fn input_statement(&mut self) -> (r: Result<Statement, ()>)
        requires
            old(self).wf(),
        ensures
            final(self).wf(),
            final(self).tokens == old(self).tokens,
            final(self).current >= old(self).current,
            r is Ok ==> final(self).current > old(self).current,
            agrees(
                stmt_result_view(r),
                p_input_statement(old(self).tokens@, old(self).current as int),
                final(self).current as int,
                old(self).reports(),
                final(self).reports(),
            ),
        decreases old(self).tokens@.len() - old(self).current, 44int,
    {
        let target_var = self.expression()?;
        self.consume(TokenType::Semicolon, "Expected ';' after statement.")?;
        match target_var {
            Expression::Variable { name } => Ok(Statement::ReadInput { target_var: name }),
            _ => Err(()),
        }
    }

    fn if_statement(&mut self) -> (r: Result<Statement, ()>)
        requires
            old(self).wf(),
        ensures
            final(self).wf(),
            final(self).tokens == old(self).tokens,
            final(self).current >= old(self).current,
            r is Ok ==> final(self).current > old(self).current,
            agrees(
                stmt_result_view(r),
                p_if_statement(old(self).tokens@, old(self).current as int),
                final(self).current as int,
                old(self).reports(),
                final(self).reports(),
            ),
        decreases old(self).tokens@.len() - old(self).current, 44int,
    {
        self.consume(TokenType::LeftParen, "Expected '(' after 'if'.")?;
        let condition = self.expression()?;
        self.consume(TokenType::RightParen, "Expected ')' after condition.")?;
        let then_branch = self.statement()?;
        let mut else_branch = None;
        if self.match_next(&[TokenType::Else]) {
            else_branch = Some(self.statement()?);
        }
        Ok(Statement::if_statement(condition, then_branch, else_branch))
    }

    fn while_statement(&mut self) -> (r: Result<Statement, ()>)
        requires
            old(self).wf(),
        ensures
            final(self).wf(),
            final(self).tokens == old(self).tokens,
            final(self).current >= old(self).current,
            r is Ok ==> final(self).current > old(self).current,
            agrees(
                stmt_result_view(r),
                p_while_statement(old(self).tokens@, old(self).current as int),
                final(self).current as int,
                old(self).reports(),
                final(self).reports(),
            ),
        decreases old(self).tokens@.len() - old(self).current, 44int,
    {
        self.consume(TokenType::LeftParen, "Expected '(' after 'while'.")?;
        let condition = self.expression()?;
        self.consume(TokenType::RightParen, "Expected ')' after condition.")?;
        let body = self.statement()?;
        Ok(Statement::while_statement(condition, body))
    }

    #[verifier::rlimit(100)]
    fn for_statement(&mut self) -> (r: Result<Statement, ()>)
        requires
            old(self).wf(),
        ensures
            final(self).wf(),
            final(self).tokens == old(self).tokens,
            final(self).current >= old(self).current,
            r is Ok ==> final(self).current > old(self).current,
            agrees(
                stmt_result_view(r),
                p_for_statement(old(self).tokens@, old(self).current as int),
                final(self).current as int,
                old(self).reports(),
                final(self).reports(),
            ),
        decreases old(self).tokens@.len() - old(self).current, 44int,
    {
        self.consume(TokenType::LeftParen, "Expected '(' after 'for'.")?;
        let initializer = self.for_initializer()?;
        let condition = self.for_clause(TokenType::Semicolon)?;
        self.consume(TokenType::Semicolon, "Expected ';' after loop condition.")?;
        let increment = self.for_clause(TokenType::RightParen)?;
        self.consume(TokenType::RightParen, "Expected ')' after for clauses.")?;
        let body = self.statement()?;
        Ok(Self::assemble_for(initializer, condition, increment, body))
    }

    /// The statement a `for` loop stands for, built from its parts.
    fn assemble_for(
        initializer: Option<Statement>,
        condition: Option<Expression>,
        increment: Option<Expression>,
        body: Statement,
    ) -> (r: Statement)
        ensures
            r.view_stmt() == desugar_for(
                match initializer {
                    Some(s) => Some(s.view_stmt()),
                    None => None,
                },
                condition,
                increment,
                body.view_stmt(),
            ),
    {
        let ghost body_view = body.view_stmt();
        let with_increment = match increment {
            Some(incr) => {
                let v = vec![body, Statement::Expression(incr)];
                proof {
                    Statement::lemma_block_view(v);
                    assert(Statement::view_all(v@) =~= seq![body_view, StmtV::Expression(incr)]);
                }
                Statement::Block(v)
            },
            None => body,
        };
        let looped = match condition {
            Some(cond) => Statement::while_statement(cond, with_increment),
            None => Statement::while_statement(Expression::literal(Object::Bool(true)), with_increment),
        };
        let ghost looped_view = looped.view_stmt();
        match initializer {
            Some(init) => {
                let ghost init_view = init.view_stmt();
                let v = vec![init, looped];
                proof {
                    Statement::lemma_block_view(v);
                    assert(Statement::view_all(v@) =~= seq![init_view, looped_view]);
                }
                Statement::Block(v)
            },
            None => looped,
        }
    }

    fn for_initializer(&mut self) -> (r: Result<Option<Statement>, ()>)
        requires
            old(self).wf(),
        ensures
            final(self).wf(),
            final(self).tokens == old(self).tokens,
            final(self).current >= old(self).current,
            agrees(
                match r {
                    Ok(Some(s)) => Ok(Some(s.view_stmt())),
                    Ok(None) => Ok(None),
                    Err(e) => Err(e),
                },
                p_for_initializer(old(self).tokens@, old(self).current as int),
                final(self).current as int,
                old(self).reports(),
                final(self).reports(),
            ),
        decreases old(self).tokens@.len() - old(self).current, 47int,
    {
        if self.match_next(&[TokenType::Var]) {
            Ok(Some(self.var_declaration()?))
        } else if !self.match_next(&[TokenType::Semicolon]) {
            Ok(Some(self.expression_statement()?))
        } else {
            Ok(None)
        }
    }

    fn for_clause(&mut self, end: TokenType) -> (r: Result<Option<Expression>, ()>)
        requires
            old(self).wf(),
        ensures
            final(self).wf(),
            final(self).tokens == old(self).tokens,
            final(self).current >= old(self).current,
            agrees(
                r,
                p_for_clause(old(self).tokens@, old(self).current as int, end),
                final(self).current as int,
                old(self).reports(),
                final(self).reports(),
            ),
        decreases old(self).tokens@.len() - old(self).current, 43int,
    {
        if !self.check(end) {
            Ok(Some(self.expression()?))
        } else {
            Ok(None)
        }
    }

    fn block_statement(&mut self) -> (r: Result<Statement, ()>)
        requires
            old(self).wf(),
        ensures
            final(self).wf(),
            final(self).tokens == old(self).tokens,
            final(self).current >= old(self).current,
            r is Ok ==> final(self).current > old(self).current,
            agrees(
                stmt_result_view(r),
                p_block_items(old(self).tokens@, old(self).current as int, Seq::empty()),
                final(self).current as int,
                old(self).reports(),
                final(self).reports(),
            ),
        decreases old(self).tokens@.len() - old(self).current, 48int,
    {
        let ghost ts = self.tokens@;
        let ghost i = self.current as int;
        let ghost reports0 = self.reports();
        let mut statements: Vec<Statement> = Vec::new();
        assert(Statement::view_all(statements@) =~= Seq::<StmtV>::empty());
        while !self.check(TokenType::RightBrace) && !self.is_at_end()
            invariant
                self.wf(),
                self.tokens == old(self).tokens,
                self.tokens@ == ts,
                self.current >= i,
                i == old(self).current,
                reports0 == old(self).reports(),
                self.reports() == reports0,
                p_block_items(ts, i, Seq::empty()) == p_block_items(
                    ts,
                    self.current as int,
                    Statement::view_all(statements@),
                ),
            decreases ts.len() - self.current,
        {
            let ghost j = self.current as int;
            let ghost prior = statements@;
            let statement = self.declaration()?;
            let ghost s = statement.view_stmt();
            statements.push(statement);
            assert(Statement::view_all(statements@) =~= Statement::view_all(prior).push(s));
        }
        self.consume(TokenType::RightBrace, "Expected '}' after block.")?;
        proof {
            Statement::lemma_block_view(statements);
        }
        Ok(Statement::Block(statements))
    }

    fn expression_statement(&mut self) -> (r: Result<Statement, ()>)
        requires
            old(self).wf(),
        ensures
            final(self).wf(),
            final(self).tokens == old(self).tokens,
            final(self).current >= old(self).current,
            r is Ok ==> final(self).current > old(self).current,
            agrees(
                stmt_result_view(r),
                p_expression_statement(old(self).tokens@, old(self).current as int),
                final(self).current as int,
                old(self).reports(),
                final(self).reports(),
            ),
        decreases old(self).tokens@.len() - old(self).current, 43int,
    {
        let value = self.expression()?;
        self.consume(TokenType::Semicolon, "Expected ';' after statement.")?;
        Ok(Statement::Expression(value))
    }

    fn expression(&mut self) -> (r: Result<Expression, ()>)
        requires
            old(self).wf(),
        ensures
            final(self).wf(),
            final(self).tokens == old(self).tokens,
            final(self).current >= old(self).current,
            agrees(
                r,
                p_expression(old(self).tokens@, old(self).current as int),
                final(self).current as int,
                old(self).reports(),
                final(self).reports(),
            ),
        decreases old(self).tokens@.len() - old(self).current, 42int,
    {
        self.assignment()
    }

    fn assignment(&mut self) -> (r: Result<Expression, ()>)
        requires
            old(self).wf(),
        ensures
            final(self).wf(),
            final(self).tokens == old(self).tokens,
            final(self).current >= old(self).current,
            agrees(
                r,
                p_assignment(old(self).tokens@, old(self).current as int),
                final(self).current as int,
                old(self).reports(),
                final(self).reports(),
            ),
        decreases old(self).tokens@.len() - old(self).current, 41int,
    {
        let expression = self.or()?;
        if self.match_next(&[TokenType::Equal]) {
            let value = self.assignment()?;
            return match expression {
                Expression::Variable { name } => Ok(Expression::assign(name, value)),
                _ => {
                    let at = self.current - 1;
                    self.error(at, "Invalid assignment target.");
                    Err(())
                },
            };
        }
        Ok(expression)
    }

    fn or(&mut self) -> (r: Result<Expression, ()>)
        requires
            old(self).wf(),
        ensures
            final(self).wf(),
            final(self).tokens == old(self).tokens,
            final(self).current >= old(self).current,
            agrees(
                r,
                p_level(old(self).tokens@, old(self).current as int, 0),
                final(self).current as int,
                old(self).reports(),
                final(self).reports(),
            ),
        decreases old(self).tokens@.len() - old(self).current, 40int,
    {
        let ghost ts = self.tokens@;
        let ghost i = self.current as int;
        let ghost reports0 = self.reports();
        let mut expr = self.and()?;
        while self.match_next(&[TokenType::Or])
            invariant
                self.wf(),
                self.tokens == old(self).tokens,
                self.tokens@ == ts,
                self.current >= i,
                i == old(self).current,
                reports0 == old(self).reports(),
                self.reports() == reports0,
                p_level(ts, i, 0) == p_level_rest(ts, self.current as int, expr, 0),
            decreases ts.len() - self.current,
        {
            let operator = self.previous().clone();
            let right = self.and()?;
            expr = Expression::logical(expr, operator, right);
        }
        Ok(expr)
    }

    fn and(&mut self) -> (r: Result<Expression, ()>)
        requires
            old(self).wf(),
        ensures
            final(self).wf(),
            final(self).tokens == old(self).tokens,
            final(self).current >= old(self).current,
            agrees(
                r,
                p_operand(old(self).tokens@, old(self).current as int, 0),
                final(self).current as int,
                old(self).reports(),
                final(self).reports(),
            ),
        decreases old(self).tokens@.len() - old(self).current, 38int,
    {
        let ghost ts = self.tokens@;
        let ghost i = self.current as int;
        let ghost reports0 = self.reports();
        let mut expr = self.equality()?;
        while self.match_next(&[TokenType::And])
            invariant
                self.wf(),
                self.tokens == old(self).tokens,
                self.tokens@ == ts,
                self.current >= i,
                i == old(self).current,
                reports0 == old(self).reports(),
                self.reports() == reports0,
                p_level(ts, i, 1) == p_level_rest(ts, self.current as int, expr, 1),
            decreases ts.len() - self.current,
        {
            let operator = self.previous().clone();
            let right = self.equality()?;
            expr = Expression::logical(expr, operator, right);
        }
        Ok(expr)
    }

    fn equality(&mut self) -> (r: Result<Expression, ()>)
        requires
            old(self).wf(),
        ensures
            final(self).wf(),
            final(self).tokens == old(self).tokens,
            final(self).current >= old(self).current,
            agrees(
                r,
                p_operand(old(self).tokens@, old(self).current as int, 1),
                final(self).current as int,
                old(self).reports(),
                final(self).reports(),
            ),
        decreases old(self).tokens@.len() - old(self).current, 36int,
    {
        let ghost ts = self.tokens@;
        let ghost i = self.current as int;
        let ghost reports0 = self.reports();
        let mut expr = self.comparison()?;
        while self.match_next(&[TokenType::NotEqual, TokenType::EqualEqual])
            invariant
                self.wf(),
                self.tokens == old(self).tokens,
                self.tokens@ == ts,
                self.current >= i,
                i == old(self).current,
                reports0 == old(self).reports(),
                self.reports() == reports0,
                p_level(ts, i, 2) == p_level_rest(ts, self.current as int, expr, 2),
            decreases ts.len() - self.current,
        {
            let operator = self.previous().clone();
            let right = self.comparison()?;
            expr = Expression::binary(expr, operator, right);
        }
        Ok(expr)
    }

    fn comparison(&mut self) -> (r: Result<Expression, ()>)
        requires
            old(self).wf(),
        ensures
            final(self).wf(),
            final(self).tokens == old(self).tokens,
            final(self).current >= old(self).current,
            agrees(
                r,
                p_operand(old(self).tokens@, old(self).current as int, 2),
                final(self).current as int,
                old(self).reports(),
                final(self).reports(),
            ),
        decreases old(self).tokens@.len() - old(self).current, 34int,
    {
        let ghost ts = self.tokens@;
        let ghost i = self.current as int;
        let ghost reports0 = self.reports();
        let mut expr = self.term()?;
        while self.match_next(
            &[TokenType::Greater, TokenType::GreaterEqual, TokenType::Less, TokenType::LessEqual],
        )
            invariant
                self.wf(),
                self.tokens == old(self).tokens,
                self.tokens@ == ts,
                self.current >= i,
                i == old(self).current,
                reports0 == old(self).reports(),
                self.reports() == reports0,
                p_level(ts, i, 3) == p_level_rest(ts, self.current as int, expr, 3),
            decreases ts.len() - self.current,
        {
            let operator = self.previous().clone();
            let right = self.term()?;
            expr = Expression::binary(expr, operator, right);
        }
        Ok(expr)
    }

    fn term(&mut self) -> (r: Result<Expression, ()>)
        requires
            old(self).wf(),
        ensures
            final(self).wf(),
            final(self).tokens == old(self).tokens,
            final(self).current >= old(self).current,
            agrees(
                r,
                p_operand(old(self).tokens@, old(self).current as int, 3),
                final(self).current as int,
                old(self).reports(),
                final(self).reports(),
            ),
        decreases old(self).tokens@.len() - old(self).current, 32int,
    {
        let ghost ts = self.tokens@;
        let ghost i = self.current as int;
        let ghost reports0 = self.reports();
        let mut expr = self.factor()?;
        while self.match_next(&[TokenType::Minus, TokenType::Plus])
            invariant
                self.wf(),
                self.tokens == old(self).tokens,
                self.tokens@ == ts,
                self.current >= i,
                i == old(self).current,
                reports0 == old(self).reports(),
                self.reports() == reports0,
                p_level(ts, i, 4) == p_level_rest(ts, self.current as int, expr, 4),
            decreases ts.len() - self.current,
        {
            let operator = self.previous().clone();
            let right = self.factor()?;
            expr = Expression::binary(expr, operator, right);
        }
        Ok(expr)
    }

    fn factor(&mut self) -> (r: Result<Expression, ()>)
        requires
            old(self).wf(),
        ensures
            final(self).wf(),
            final(self).tokens == old(self).tokens,
            final(self).current >= old(self).current,
            agrees(
                r,
                p_operand(old(self).tokens@, old(self).current as int, 4),
                final(self).current as int,
                old(self).reports(),
                final(self).reports(),
            ),
        decreases old(self).tokens@.len() - old(self).current, 30int,
    {
        let ghost ts = self.tokens@;
        let ghost i = self.current as int;
        let ghost reports0 = self.reports();
        assert(p_operand(ts, i, 5) == p_unary(ts, i));
        let mut expr = self.unary()?;
        while self.match_next(&[TokenType::Slash, TokenType::Asterisk, TokenType::Mod])
            invariant
                self.wf(),
                self.tokens == old(self).tokens,
                self.tokens@ == ts,
                self.current >= i,
                i == old(self).current,
                reports0 == old(self).reports(),
                self.reports() == reports0,
                p_level(ts, i, 5) == p_level_rest(ts, self.current as int, expr, 5),
            decreases ts.len() - self.current,
        {
            let operator = self.previous().clone();
            assert(p_operand(ts, self.current as int, 5) == p_unary(ts, self.current as int));
            let right = self.unary()?;
            expr = Expression::binary(expr, operator, right);
        }
        Ok(expr)
    }

    fn unary(&mut self) -> (r: Result<Expression, ()>)
        requires
            old(self).wf(),
        ensures
            final(self).wf(),
            final(self).tokens == old(self).tokens,
            final(self).current >= old(self).current,
            agrees(
                r,
                p_unary(old(self).tokens@, old(self).current as int),
                final(self).current as int,
                old(self).reports(),
                final(self).reports(),
            ),
        decreases old(self).tokens@.len() - old(self).current, 11int,
    {
        if self.match_next(&[TokenType::Not, TokenType::Minus]) {
            let operator = self.previous().clone();
            let right = self.unary()?;
            return Ok(Expression::unary(operator, right));
        }
        self.primary()
    }

    fn primary(&mut self) -> (r: Result<Expression, ()>)
        requires
            old(self).wf(),
        ensures
            final(self).wf(),
            final(self).tokens == old(self).tokens,
            final(self).current >= old(self).current,
            agrees(
                r,
                p_primary(old(self).tokens@, old(self).current as int),
                final(self).current as int,
                old(self).reports(),
                final(self).reports(),
            ),
        decreases old(self).tokens@.len() - old(self).current, 10int,
    {
        if self.match_next(&[TokenType::False]) {
            Ok(Expression::literal(Object::Bool(false)))
        } else if self.match_next(&[TokenType::True]) {
            Ok(Expression::literal(Object::Bool(true)))
        } else if self.match_next(&[TokenType::Null]) {
            Ok(Expression::literal(Object::Null))
        } else if self.match_next(&[TokenType::Number, TokenType::String]) {
            let value = match &self.previous().literal {
                Some(v) => v.clone(),
                None => Object::Null,
            };
            Ok(Expression::literal(value))
        } else if self.match_next(&[TokenType::Identifier]) {
            Ok(Expression::variable(self.previous().clone()))
        } else if self.match_next(&[TokenType::LeftParen]) {
            let expr = self.expression()?;
            self.consume(TokenType::RightParen, "Expected ')' after expression.")?;
            Ok(Expression::grouping(expr))
        } else {
            let at = self.current;
            self.error(at, "Expected expression.");
            Err(())
        }
    }

    fn match_next(&mut self, token_types: &[TokenType]) -> (r: bool)
        requires
            old(self).wf(),
        ensures
            final(self).wf(),
            final(self).tokens == old(self).tokens,
            final(self).errors == old(self).errors,
            r == matches_any(old(self).tokens@, old(self).current as int, token_types@),
            final(self).current == old(self).current + if r {
                1int
            } else {
                0int
            },
    {
        let mut i: usize = 0;
        while i < token_types.len()
            invariant
                self.wf(),
                self.tokens == old(self).tokens,
                self.errors == old(self).errors,
                self.current == old(self).current,
                i <= token_types@.len(),
                forall|j: int| 0 <= j < i ==> !check(self.tokens@, self.current as int, #[trigger] token_types@[j]),
            decreases token_types@.len() - i,
        {
            if self.check(token_types[i]) {
                self.advance();
                assert(token_types@.contains(token_types@[i as int]));
                return true;
            }
            i += 1;
        }
        proof {
            if matches_any(self.tokens@, self.current as int, token_types@) {
                let k = choose|k: int| 0 <= k < token_types@.len() && token_types@[k] == self.tokens@[self.current as int].token_type;
                assert(!check(self.tokens@, self.current as int, token_types@[k]));
            }
        }
        false
    }

    fn check(&self, token_type: TokenType) -> (r: bool)
        requires
            self.wf(),
        ensures
            r == check(self.tokens@, self.current as int, token_type),
    {
        if self.is_at_end() {
            false
        } else {
            self.peek().token_type == token_type
        }
    }

    fn advance(&mut self)
        requires
            old(self).wf(),
        ensures
            final(self).wf(),
            final(self).tokens == old(self).tokens,
            final(self).errors == old(self).errors,
            final(self).current == if at_end(old(self).tokens@, old(self).current as int) {
                old(self).current as int
            } else {
                old(self).current + 1
            },
    {
        let n = self.tokens.len();
        if !self.is_at_end() {
            assert(self.current + 1 < n);
            self.current = self.current + 1;
        }
    }

    fn is_at_end(&self) -> (r: bool)
        requires
            self.wf(),
        ensures
            r == at_end(self.tokens@, self.current as int),
    {
        self.peek().token_type == TokenType::EOF
    }

    fn peek(&self) -> (r: &Token)
        requires
            self.wf(),
        ensures
            *r == self.tokens@[self.current as int],
    {
        &self.tokens[self.current]
    }

    fn previous(&self) -> (r: &Token)
        requires
            self.wf(),
            self.current > 0,
        ensures
            *r == self.tokens@[self.current - 1],
    {
        &self.tokens[self.current - 1]
    }

    fn consume(&mut self, token_type: TokenType, message: &str) -> (r: Result<(), ()>)
        requires
            old(self).wf(),
        ensures
            final(self).wf(),
            final(self).tokens == old(self).tokens,
            final(self).current >= old(self).current,
            match consume(old(self).tokens@, old(self).current as int, token_type, message@) {
                Ok(j) => r is Ok && final(self).current == j && final(self).reports() == old(
                    self,
                ).reports(),
                Err((report, j)) => r is Err && final(self).current == j && final(self).reports()
                    == old(self).reports().push(report->0) && report is Some,
            },
    {
        if self.check(token_type) {
            self.advance();
            Ok(())
        } else {
            let at = self.current;
            self.error(at, message);
            Err(())
        }
    }

    /// Logs an error at the token at `at`.
    fn error(&mut self, at: usize, message: &str)
        requires
            old(self).wf(),
            at < old(self).tokens@.len(),
        ensures
            final(self).wf(),
            final(self).tokens == old(self).tokens,
            final(self).current == old(self).current,
            final(self).reports() == old(self).reports().push(
                error_report(old(self).tokens@[at as int], message@),
            ),
    {
        let report = Logger::token_error(&self.tokens[at], message);
        self.errors.push(report);
        assert(self.reports() =~= old(self).reports().push(
            error_report(old(self).tokens@[at as int], message@),
        ));
    }

    /// Skips to where a new declaration likely starts: past the current token, then on to
    /// just after a `;` or to a keyword that starts a statement.
    fn synchronize(&mut self)
        requires
            old(self).wf(),
        ensures
            final(self).wf(),
            final(self).tokens == old(self).tokens,
            final(self).errors == old(self).errors,
            final(self).current == synchronized(old(self).tokens@, old(self).current as int),
            final(self).current > old(self).current || at_end(
                old(self).tokens@,
                old(self).current as int,
            ),
    {
        let ghost ts = self.tokens@;
        let ghost j = self.current as int;
        let was_at_end = self.is_at_end();
        self.advance();
        if was_at_end {
            return ;
        }
        proof {
            lemma_sync_from_advances(ts, j + 1);
        }
        while !self.is_at_end()
            invariant
                self.wf(),
                self.tokens == old(self).tokens,
                self.tokens@ == ts,
                self.errors == old(self).errors,
                self.current > 0,
                j == old(self).current,
                ts == old(self).tokens@,
                !at_end(ts, j),
                self.current > j,
                synchronized(ts, j) == sync_from(ts, self.current as int),
            decreases ts.len() - self.current,
        {
            if self.previous().token_type == TokenType::Semicolon {
                return ;
            }
            let t = self.peek().token_type;
            let found_boundary = match t {
                TokenType::Var | TokenType::For | TokenType::If | TokenType::While
                | TokenType::Print => true,
                _ => false,
            };
            if found_boundary {
                return ;
            }
            self.advance();
        }
    }
}

} // verus!

verus! {

/// The tokens the scanner reads from any source can be parsed once each number token is
/// given its value: they end with the end of input, and every string token carries its text.
pub proof fn lemma_scanned_tokens_parse(s: Seq<char>, tokens: Seq<Token>)
    requires
        tokens.len() == crate::scanner::source_tokens(s).len(),
        forall|i: int|
            0 <= i < tokens.len() ==> #[trigger] tokens[i].token_type
                == crate::scanner::source_tokens(s)[i].token_type,
        forall|i: int|
            0 <= i < tokens.len() && #[trigger] tokens[i].token_type == TokenType::String
                ==> crate::token::literal_view(tokens[i].literal)
                == crate::scanner::source_tokens(s)[i].literal,
        forall|i: int|
            0 <= i < tokens.len() && #[trigger] tokens[i].token_type == TokenType::Number
                ==> tokens[i].literal is Some,
    ensures
        tokens_wf(tokens),
{
    crate::scanner::lemma_source_tokens(s);
    let ts = crate::scanner::source_tokens(s);
    assert(tokens.last().token_type == ts.last().token_type);
    assert forall|i: int|
        0 <= i < tokens.len() && (#[trigger] tokens[i].token_type == TokenType::Number
            || tokens[i].token_type == TokenType::String) implies tokens[i].literal is Some by {
        if tokens[i].token_type == TokenType::String {
            assert(ts[i].token_type == TokenType::String);
        }
    }
}

} // verus!
