use vstd::prelude::*;

use crate::token::{Token, TokenType};

verus! {

/// The character of a decimal digit.
pub open spec fn digit_char(d: int) -> char {
    if d == 0 {
        '0'
    } else if d == 1 {
        '1'
    } else if d == 2 {
        '2'
    } else if d == 3 {
        '3'
    } else if d == 4 {
        '4'
    } else if d == 5 {
        '5'
    } else if d == 6 {
        '6'
    } else if d == 7 {
        '7'
    } else if d == 8 {
        '8'
    } else {
        '9'
    }
}

/// The decimal notation of a natural number, without leading zeros.
pub open spec fn decimal(n: nat) -> Seq<char>
    decreases n,
{
    if n < 10 {
        seq![digit_char(n as int)]
    } else {
        decimal(n / 10).push(digit_char((n % 10) as int))
    }
}

/// The text of an error report: the line, the place in it and the message.
pub open spec fn report_text(line: nat, place: Seq<char>, message: Seq<char>) -> Seq<char> {
    "[line "@ + decimal(line) + "] Error at "@ + place + ": "@ + message
}

/// The place that a report on a token names: `end` for the end of the input, else its text.
pub open spec fn token_place(token: Token) -> Seq<char> {
    if token.token_type == TokenType::EOF {
        "end"@
    } else {
        token.lexeme@
    }
}

/// The one-character string of a decimal digit.
fn digit_str(d: usize) -> (r: &'static str)
    requires
        d < 10,
    ensures
        r@ == seq![digit_char(d as int)],
{
    let digits = "0123456789";
    proof {
        reveal_strlit("0123456789");
    }
    let r = digits.substring_char(d, d + 1);
    assert(r@ =~= seq![digit_char(d as int)]);
    r
}

/// The decimal notation of `n`.
pub fn decimal_string(n: usize) -> (r: String)
    ensures
        r@ == decimal(n as nat),
    decreases n,
{
    if n < 10 {
        String::from_str(digit_str(n))
    } else {
        let mut r = decimal_string(n / 10);
        r.append(digit_str(n % 10));
        r
    }
}

/// Renders error reports; printing them is left to the caller.
pub struct Logger;

impl Logger {
    /// The report of an error on `line` that names no place.
    pub fn error(line: usize, message: &str) -> (r: String)
        ensures
            r@ == report_text(line as nat, Seq::empty(), message@),
    {
        proof {
            reveal_strlit("");
            assert(""@ =~= Seq::<char>::empty());
        }
        Self::report(line, "", message)
    }

    /// The report of an error at `token`.
    pub fn token_error(token: &Token, message: &str) -> (r: String)
        ensures
            r@ == report_text(token.line as nat, token_place(*token), message@),
    {
        if token.token_type == TokenType::EOF {
            Self::report(token.line, "end", message)
        } else {
            Self::report(token.line, token.lexeme.as_str(), message)
        }
    }

    fn report(line: usize, place: &str, message: &str) -> (r: String)
        ensures
            r@ == report_text(line as nat, place@, message@),
    {
        let mut r = String::from_str("[line ");
        let number = decimal_string(line);
        r.append(number.as_str());
        r.append("] Error at ");
        r.append(place);
        r.append(": ");
        r.append(message);
        r
    }
}

} // verus!
