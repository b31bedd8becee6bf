use vstd::prelude::*;

use crate::object::{Object, ObjectV};

verus! {

/// The kinds of tokens of Oil.
#[derive(Clone, Copy, Debug, PartialEq, Eq, Structural)]
pub enum TokenType {
    LeftParen,
    RightParen,
    LeftBrace,
    RightBrace,
    Comma,
    Period,
    Minus,
    Plus,
    Semicolon,
    Slash,
    Asterisk,
    Mod,
    Not,
    NotEqual,
    Equal,
    EqualEqual,
    Greater,
    GreaterEqual,
    Less,
    LessEqual,
    Identifier,
    String,
    Number,
    And,
    Class,
    Else,
    False,
    Func,
    For,
    If,
    Null,
    Or,
    Print,
    ReadInput,
    Return,
    Super,
    This,
    True,
    Var,
    While,
    EOF,
}

/// A token: its kind, the source text it was read from, the value it denotes (for string and
/// number literals) and the line it stands on.
#[derive(Debug)]
pub struct Token {
    pub token_type: TokenType,
    pub lexeme: String,
    pub literal: Option<Object>,
    pub line: usize,
}

/// The model of a token, with its text as characters.
pub struct TokenV {
    pub token_type: TokenType,
    pub lexeme: Seq<char>,
    pub literal: Option<ObjectV>,
    pub line: nat,
}

pub open spec fn literal_view(literal: Option<Object>) -> Option<ObjectV> {
    match literal {
        Some(o) => Some(o@),
        None => None,
    }
}

impl View for Token {
    type V = TokenV;

    open spec fn view(&self) -> TokenV {
        TokenV {
            token_type: self.token_type,
            lexeme: self.lexeme@,
            literal: literal_view(self.literal),
            line: self.line as nat,
        }
    }
}

impl Clone for Token {
    fn clone(&self) -> (r: Self)
        ensures
            r == *self,
    {
        let literal = match &self.literal {
            Some(o) => Some(o.clone()),
            None => None,
        };
        Token { token_type: self.token_type, lexeme: self.lexeme.clone(), literal, line: self.line }
    }
}

impl Token {
    pub fn new(token_type: TokenType, lexeme: &str, literal: Object, line: usize) -> (r: Token)
        ensures
            r.token_type == token_type,
            r.lexeme@ == lexeme@,
            r.literal == Some(literal),
            r.line == line,
    {
        Token { token_type, lexeme: String::from_str(lexeme), literal: Some(literal), line }
    }
}

/// The keyword that a word spells, if any.
pub open spec fn keyword_type(w: Seq<char>) -> Option<TokenType> {
    if w == seq!['a', 'n', 'd'] {
        Some(TokenType::And)
    } else if w == seq!['c', 'l', 'a', 's', 's'] {
        Some(TokenType::Class)
    } else if w == seq!['e', 'l', 's', 'e'] {
        Some(TokenType::Else)
    } else if w == seq!['f', 'a', 'l', 's', 'e'] {
        Some(TokenType::False)
    } else if w == seq!['f', 'o', 'r'] {
        Some(TokenType::For)
    } else if w == seq!['f', 'u', 'n', 'c'] {
        Some(TokenType::Func)
    } else if w == seq!['i', 'f'] {
        Some(TokenType::If)
    } else if w == seq!['n', 'u', 'l', 'l'] {
        Some(TokenType::Null)
    } else if w == seq!['o', 'r'] {
        Some(TokenType::Or)
    } else if w == seq!['p', 'r', 'i', 'n', 't'] {
        Some(TokenType::Print)
    } else if w == seq!['r', 'e', 'a', 'd', '_', 'i', 'n', 'p', 'u', 't'] {
        Some(TokenType::ReadInput)
    } else if w == seq!['r', 'e', 't', 'u', 'r', 'n'] {
        Some(TokenType::Return)
    } else if w == seq!['s', 'u', 'p', 'e', 'r'] {
        Some(TokenType::Super)
    } else if w == seq!['t', 'h', 'i', 's'] {
        Some(TokenType::This)
    } else if w == seq!['t', 'r', 'u', 'e'] {
        Some(TokenType::True)
    } else if w == seq!['v', 'a', 'r'] {
        Some(TokenType::Var)
    } else if w == seq!['w', 'h', 'i', 'l', 'e'] {
        Some(TokenType::While)
    } else {
        None
    }
}

/// Whether `chars[start..end]` spells `word`.
fn span_spells(chars: &Vec<char>, start: usize, end: usize, w: &[char]) -> (r: bool)
    requires
        start <= end <= chars@.len(),
    ensures
        r == (chars@.subrange(start as int, end as int) == w@),
{
    if end - start != w.len() {
        assert(chars@.subrange(start as int, end as int).len() != w@.len());
        return false;
    }
    let mut i: usize = 0;
    while i < w.len()
        invariant
            start <= end <= chars@.len(),
            end - start == w@.len(),
            i <= w@.len(),
            forall|j: int| 0 <= j < i ==> chars@[start + j] == w@[j],
        decreases w@.len() - i,
    {
        if chars[start + i] != w[i] {
            assert(chars@.subrange(start as int, end as int)[i as int] != w@[i as int]);
            return false;
        }
        i += 1;
    }
    assert(chars@.subrange(start as int, end as int) =~= w@);
    true
}

/// The keyword spelled by `chars[start..end]`, if any.
pub fn keyword(chars: &Vec<char>, start: usize, end: usize) -> (r: Option<TokenType>)
    requires
        start <= end <= chars@.len(),
    ensures
        r == keyword_type(chars@.subrange(start as int, end as int)),
{
    if span_spells(chars, start, end, &['a', 'n', 'd']) {
        Some(TokenType::And)
    } else if span_spells(chars, start, end, &['c', 'l', 'a', 's', 's']) {
        Some(TokenType::Class)
    } else if span_spells(chars, start, end, &['e', 'l', 's', 'e']) {
        Some(TokenType::Else)
    } else if span_spells(chars, start, end, &['f', 'a', 'l', 's', 'e']) {
        Some(TokenType::False)
    } else if span_spells(chars, start, end, &['f', 'o', 'r']) {
        Some(TokenType::For)
    } else if span_spells(chars, start, end, &['f', 'u', 'n', 'c']) {
        Some(TokenType::Func)
    } else if span_spells(chars, start, end, &['i', 'f']) {
        Some(TokenType::If)
    } else if span_spells(chars, start, end, &['n', 'u', 'l', 'l']) {
        Some(TokenType::Null)
    } else if span_spells(chars, start, end, &['o', 'r']) {
        Some(TokenType::Or)
    } else if span_spells(chars, start, end, &['p', 'r', 'i', 'n', 't']) {
        Some(TokenType::Print)
    } else if span_spells(
        chars,
        start,
        end,
        &['r', 'e', 'a', 'd', '_', 'i', 'n', 'p', 'u', 't'],
    ) {
        Some(TokenType::ReadInput)
    } else if span_spells(chars, start, end, &['r', 'e', 't', 'u', 'r', 'n']) {
        Some(TokenType::Return)
    } else if span_spells(chars, start, end, &['s', 'u', 'p', 'e', 'r']) {
        Some(TokenType::Super)
    } else if span_spells(chars, start, end, &['t', 'h', 'i', 's']) {
        Some(TokenType::This)
    } else if span_spells(chars, start, end, &['t', 'r', 'u', 'e']) {
        Some(TokenType::True)
    } else if span_spells(chars, start, end, &['v', 'a', 'r']) {
        Some(TokenType::Var)
    } else if span_spells(chars, start, end, &['w', 'h', 'i', 'l', 'e']) {
        Some(TokenType::While)
    } else {
        None
    }
}

} // verus!
