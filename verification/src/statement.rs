use vstd::prelude::*;

use crate::expression::Expression;
use crate::token::Token;

verus! {

/// A statement of Oil.
#[derive(Debug)]
pub enum Statement {
    Var { name: Token, initializer: Option<Expression> },
    Expression(Expression),
    Print(Expression),
    ReadInput { target_var: Token },
    If { condition: Expression, then_branch: Box<Statement>, else_branch: Option<Box<Statement>> },
    While { condition: Expression, body: Box<Statement> },
    Block(Vec<Statement>),
}

/// The model of a statement: the statements of a block form a sequence.
pub enum StmtV {
    Var { name: Token, initializer: Option<Expression> },
    Expression(Expression),
    Print(Expression),
    ReadInput { target_var: Token },
    If { condition: Expression, then_branch: Box<StmtV>, else_branch: Option<Box<StmtV>> },
    While { condition: Expression, body: Box<StmtV> },
    Block(Seq<StmtV>),
}

impl Statement {
    pub open spec fn view_stmt(self) -> StmtV
        decreases self,
    {
        match self {
            Statement::Var { name, initializer } => StmtV::Var { name, initializer },
            Statement::Expression(e) => StmtV::Expression(e),
            Statement::Print(e) => StmtV::Print(e),
            Statement::ReadInput { target_var } => StmtV::ReadInput { target_var },
            Statement::If { condition, then_branch, else_branch } => StmtV::If {
                condition,
                then_branch: Box::new((*then_branch).view_stmt()),
                else_branch: match else_branch {
                    Some(b) => Some(Box::new((*b).view_stmt())),
                    None => None,
                },
            },
            Statement::While { condition, body } => StmtV::While {
                condition,
                body: Box::new((*body).view_stmt()),
            },
            Statement::Block(v) => StmtV::Block(
                Seq::new(
                    v@.len(),
                    |i: int|
                        {
                            if 0 <= i < v@.len() {
                                v@[i].view_stmt()
                            } else {
                                StmtV::Block(Seq::empty())
                            }
                        },
                ),
            ),
        }
    }

    /// The models of a list of statements.
    pub open spec fn view_all(v: Seq<Statement>) -> Seq<StmtV> {
        Seq::new(v.len(), |i: int| v[i].view_stmt())
    }

    pub proof fn lemma_block_view(v: Vec<Statement>)
        ensures
            Statement::Block(v).view_stmt() == StmtV::Block(Statement::view_all(v@)),
    {
        let w = Statement::Block(v).view_stmt();
        match w {
            StmtV::Block(items) => {
                assert(items =~= Statement::view_all(v@));
            },
            _ => {},
        }
    }

    pub fn var(name: Token, initializer: Option<Expression>) -> (r: Statement)
        ensures
            r == (Statement::Var { name, initializer }),
    {
        Statement::Var { name, initializer }
    }

    pub fn if_statement(
        condition: Expression,
        then_branch: Statement,
        else_branch: Option<Statement>,
    ) -> (r: Statement)
        ensures
            r == (Statement::If {
                condition,
                then_branch: Box::new(then_branch),
                else_branch: match else_branch {
                    Some(s) => Some(Box::new(s)),
                    None => None,
                },
            }),
    {
        let else_value = match else_branch {
            Some(statement) => Some(Box::new(statement)),
            None => None,
        };
        Statement::If { condition, then_branch: Box::new(then_branch), else_branch: else_value }
    }

    pub fn while_statement(condition: Expression, body: Statement) -> (r: Statement)
        ensures
            r == (Statement::While { condition, body: Box::new(body) }),
    {
        Statement::While { condition, body: Box::new(body) }
    }
}

} // verus!
