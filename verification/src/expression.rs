use vstd::prelude::*;

use crate::object::Object;
use crate::token::Token;

verus! {

/// An expression of Oil.
#[derive(Debug)]
pub enum Expression {
    Binary { left: Box<Expression>, operator: Token, right: Box<Expression> },
    Grouping { expression: Box<Expression> },
    Literal { value: Object },
    Unary { operator: Token, right: Box<Expression> },
    Variable { name: Token },
    Assign { name: Token, value: Box<Expression> },
    Logical { left: Box<Expression>, operator: Token, right: Box<Expression> },
}

impl Clone for Expression {
    fn clone(&self) -> (r: Self)
        ensures
            r == *self,
        decreases self,
    {
        match self {
            Expression::Binary { left, operator, right } => Expression::Binary {
                left: Box::new((**left).clone()),
                operator: operator.clone(),
                right: Box::new((**right).clone()),
            },
            Expression::Grouping { expression } => Expression::Grouping {
                expression: Box::new((**expression).clone()),
            },
            Expression::Literal { value } => Expression::Literal { value: value.clone() },
            Expression::Unary { operator, right } => Expression::Unary {
                operator: operator.clone(),
                right: Box::new((**right).clone()),
            },
            Expression::Variable { name } => Expression::Variable { name: name.clone() },
            Expression::Assign { name, value } => Expression::Assign {
                name: name.clone(),
                value: Box::new((**value).clone()),
            },
            Expression::Logical { left, operator, right } => Expression::Logical {
                left: Box::new((**left).clone()),
                operator: operator.clone(),
                right: Box::new((**right).clone()),
            },
        }
    }
}

impl Expression {
    pub fn binary(left: Expression, operator: Token, right: Expression) -> (r: Expression)
        ensures
            r == (Expression::Binary { left: Box::new(left), operator, right: Box::new(right) }),
    {
        Expression::Binary { left: Box::new(left), operator, right: Box::new(right) }
    }

    pub fn unary(operator: Token, right: Expression) -> (r: Expression)
        ensures
            r == (Expression::Unary { operator, right: Box::new(right) }),
    {
        Expression::Unary { operator, right: Box::new(right) }
    }

    pub fn grouping(expression: Expression) -> (r: Expression)
        ensures
            r == (Expression::Grouping { expression: Box::new(expression) }),
    {
        Expression::Grouping { expression: Box::new(expression) }
    }

    pub fn literal(value: Object) -> (r: Expression)
        ensures
            r == (Expression::Literal { value }),
    {
        Expression::Literal { value }
    }

    pub fn variable(name: Token) -> (r: Expression)
        ensures
            r == (Expression::Variable { name }),
    {
        Expression::Variable { name }
    }

    pub fn assign(name: Token, value: Expression) -> (r: Expression)
        ensures
            r == (Expression::Assign { name, value: Box::new(value) }),
    {
        Expression::Assign { name, value: Box::new(value) }
    }

    pub fn logical(left: Expression, operator: Token, right: Expression) -> (r: Expression)
        ensures
            r == (Expression::Logical { left: Box::new(left), operator, right: Box::new(right) }),
    {
        Expression::Logical { left: Box::new(left), operator, right: Box::new(right) }
    }
}

} // verus!

verus! {

/// A piece of text to show: plain text, or a number that is shown as its double is.
#[derive(Debug)]
pub enum Piece {
    Text(String),
    Number(u64),
}

/// The model of a piece.
pub enum PieceV {
    Text(Seq<char>),
    Number(u64),
}

impl View for Piece {
    type V = PieceV;

    open spec fn view(&self) -> PieceV {
        match self {
            Piece::Text(s) => PieceV::Text(s@),
            Piece::Number(n) => PieceV::Number(*n),
        }
    }
}

pub open spec fn piece_views(pieces: Seq<Piece>) -> Seq<PieceV> {
    pieces.map_values(|p: Piece| p@)
}

/// How a value is shown: a string as its text, a number as its double, `true`, `false` or
/// `null`.
pub open spec fn object_piece(value: crate::object::ObjectV) -> PieceV {
    match value {
        crate::object::ObjectV::Str(s) => PieceV::Text(s),
        crate::object::ObjectV::Num(n) => PieceV::Number(n),
        crate::object::ObjectV::Bool(b) => PieceV::Text(if b { "true"@ } else { "false"@ }),
        crate::object::ObjectV::Null => PieceV::Text("null"@),
    }
}

/// How a token is shown: by its text, unless it carries a value other than `null`.
pub open spec fn token_piece(token: Token) -> PieceV {
    match token.literal {
        Some(o) => match o {
            Object::Null => PieceV::Text(token.lexeme@),
            _ => object_piece(o@),
        },
        None => PieceV::Text(token.lexeme@),
    }
}

/// Subtrees shown side by side, a space between each two.
pub open spec fn joined(parts: Seq<Seq<PieceV>>) -> Seq<PieceV>
    decreases parts.len(),
{
    if parts.len() == 0 {
        Seq::empty()
    } else if parts.len() == 1 {
        parts[0]
    } else {
        joined(parts.drop_last()) + seq![PieceV::Text(" "@)] + parts.last()
    }
}

/// Subtrees in parentheses after a name; without a name, just the subtrees.
pub open spec fn parenthesized(name: Seq<char>, parts: Seq<Seq<PieceV>>) -> Seq<PieceV> {
    if name.len() == 0 {
        joined(parts)
    } else {
        seq![PieceV::Text("("@ + name + " "@)] + joined(parts) + seq![PieceV::Text(")"@)]
    }
}

/// The tree of an expression in prefix notation: an operator and its operands in
/// parentheses, a grouping as what it holds, a literal as its value.
pub open spec fn tree(e: Expression) -> Seq<PieceV>
    decreases e,
{
    match e {
        Expression::Binary { left, operator, right } => parenthesized(
            operator.lexeme@,
            seq![tree(*left), tree(*right)],
        ),
        Expression::Logical { left, operator, right } => parenthesized(
            operator.lexeme@,
            seq![tree(*left), tree(*right)],
        ),
        Expression::Grouping { expression } => parenthesized(Seq::empty(), seq![tree(*expression)]),
        Expression::Literal { value } => seq![object_piece(value@)],
        Expression::Unary { operator, right } => parenthesized(operator.lexeme@, seq![tree(*right)]),
        Expression::Variable { name } => seq![PieceV::Text(name.lexeme@)],
        Expression::Assign { name, value } => parenthesized(
            "="@,
            seq![seq![PieceV::Text(name.lexeme@)], tree(*value)],
        ),
    }
}

impl Object {
    /// How the value is shown.
    pub fn display(&self) -> (r: Piece)
        ensures
            r@ == object_piece(self@),
    {
        match self {
            Object::Str(s) => Piece::Text(s.clone()),
            Object::Num(n) => Piece::Number(*n),
            Object::Bool(b) => Piece::Text(String::from_str(if *b { "true" } else { "false" })),
            Object::Null => Piece::Text(String::from_str("null")),
        }
    }
}

impl Token {
    /// How the token is shown.
    pub fn display(&self) -> (r: Piece)
        ensures
            r@ == token_piece(*self),
    {
        match &self.literal {
            None => Piece::Text(self.lexeme.clone()),
            Some(obj) => match obj {
                Object::Null => Piece::Text(self.lexeme.clone()),
                other => other.display(),
            },
        }
    }
}

impl Expression {
    /// The tree of the expression in prefix notation.
    pub fn to_tree(&self) -> (r: Vec<Piece>)
        ensures
            piece_views(r@) == tree(*self),
        decreases self,
    {
        match self {
            Expression::Binary { left, operator, right } => {
                let l = left.to_tree();
                let r = right.to_tree();
                let parts = vec![l, r];
                assert(parts@.map_values(|e: Vec<Piece>| piece_views(e@)) =~= seq![
                    tree(**left),
                    tree(**right),
                ]);
                Self::parenthesize(operator.lexeme.as_str(), parts)
            },
            Expression::Logical { left, operator, right } => {
                let l = left.to_tree();
                let r = right.to_tree();
                let parts = vec![l, r];
                assert(parts@.map_values(|e: Vec<Piece>| piece_views(e@)) =~= seq![
                    tree(**left),
                    tree(**right),
                ]);
                Self::parenthesize(operator.lexeme.as_str(), parts)
            },
            Expression::Grouping { expression } => {
                let inner = expression.to_tree();
                proof {
                    reveal_strlit("");
                    assert(""@ =~= Seq::<char>::empty());
                }
                let parts = vec![inner];
                assert(parts@.map_values(|e: Vec<Piece>| piece_views(e@)) =~= seq![
                    tree(**expression),
                ]);
                Self::parenthesize("", parts)
            },
            Expression::Literal { value } => {
                let p = value.display();
                let r = vec![p];
                assert(piece_views(r@) =~= tree(*self));
                r
            },
            Expression::Unary { operator, right } => {
                let r = right.to_tree();
                let parts = vec![r];
                assert(parts@.map_values(|e: Vec<Piece>| piece_views(e@)) =~= seq![tree(**right)]);
                Self::parenthesize(operator.lexeme.as_str(), parts)
            },
            Expression::Variable { name } => {
                let r = vec![Piece::Text(name.lexeme.clone())];
                assert(piece_views(r@) =~= tree(*self));
                r
            },
            Expression::Assign { name, value } => {
                let n = vec![Piece::Text(name.lexeme.clone())];
                let v = value.to_tree();
                proof {
                    reveal_strlit("=");
                    assert(piece_views(n@) =~= seq![PieceV::Text(name.lexeme@)]);
                }
                let parts = vec![n, v];
                assert(parts@.map_values(|e: Vec<Piece>| piece_views(e@)) =~= seq![
                    seq![PieceV::Text(name.lexeme@)],
                    tree(**value),
                ]);
                Self::parenthesize("=", parts)
            },
        }
    }

    /// Subtrees in parentheses after `name`, a space between each two.
    fn parenthesize(name: &str, expressions: Vec<Vec<Piece>>) -> (r: Vec<Piece>)
        ensures
            piece_views(r@) == parenthesized(
                name@,
                expressions@.map_values(|e: Vec<Piece>| piece_views(e@)),
            ),
    {
        let ghost parts = expressions@.map_values(|e: Vec<Piece>| piece_views(e@));
        let ghost all = expressions@;
        let n = expressions.len();
        let mut expressions = expressions;
        let mut inner: Vec<Piece> = Vec::new();
        let mut k: usize = 0;
        while expressions.len() > 0
            invariant
                n == all.len(),
                parts == all.map_values(|e: Vec<Piece>| piece_views(e@)),
                k <= n,
                expressions@ == all.subrange(k as int, n as int),
                piece_views(inner@) == joined(parts.subrange(0, k as int)),
            decreases expressions@.len(),
        {
            let ghost before = piece_views(inner@);
            let mut e = expressions.remove(0);
            if k > 0 {
                inner.push(Piece::Text(String::from_str(" ")));
            }
            let ghost middle = inner@;
            let ghost taken = e@;
            inner.append(&mut e);
            proof {
                let next = parts.subrange(0, k + 1);
                assert(taken == all[k as int]@);
                assert(next.last() == piece_views(taken));
                if k > 0 {
                    assert(next.drop_last() =~= parts.subrange(0, k as int));
                    assert(piece_views(inner@) =~= before + seq![PieceV::Text(" "@)] + piece_views(taken));
                } else {
                    assert(piece_views(inner@) =~= piece_views(taken));
                }
            }
            k += 1;
            assert(expressions@ =~= all.subrange(k as int, n as int));
        }
        assert(parts.subrange(0, n as int) =~= parts);
        if name.is_empty() {
            return inner;
        }
        let mut open = String::from_str("(");
        open.append(name);
        open.append(" ");
        let mut r: Vec<Piece> = Vec::new();
        r.push(Piece::Text(open));
        let ghost body = piece_views(inner@);
        r.append(&mut inner);
        r.push(Piece::Text(String::from_str(")")));
        assert(piece_views(r@) =~= seq![PieceV::Text("("@ + name@ + " "@)] + body + seq![PieceV::Text(")"@)]);
        r
    }
}

} // verus!
