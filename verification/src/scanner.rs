use vstd::prelude::*;

use crate::logger::{report_text, Logger};
use crate::object::{Object, ObjectV};
use crate::token::{keyword, keyword_type, Token, TokenType, TokenV};

verus! {

broadcast use vstd::string::group_string_axioms;

// ---------------------------------------------------------------------------------------------
// The lexical grammar of Oil, over the characters of an ASCII source.
// ---------------------------------------------------------------------------------------------

/// The character at `i`, or `'\0'` past the end.
pub open spec fn peek_at(s: Seq<char>, i: int) -> char {
    if 0 <= i < s.len() {
        s[i]
    } else {
        '\0'
    }
}

pub open spec fn is_digit(c: char) -> bool {
    '0' <= c && c <= '9'
}

pub open spec fn is_letter(c: char) -> bool {
    ('a' <= c && c <= 'z') || ('A' <= c && c <= 'Z')
}

/// The characters that may continue a word.
pub open spec fn is_word_char(c: char) -> bool {
    is_letter(c) || is_digit(c) || c == '_'
}

/// The first index from `i` on that holds no digit.
pub open spec fn digits_end(s: Seq<char>, i: int) -> int
    decreases s.len() - i,
{
    if 0 <= i < s.len() && is_digit(s[i]) {
        digits_end(s, i + 1)
    } else {
        i
    }
}

/// The first index from `i` on that holds no word character.
pub open spec fn word_end(s: Seq<char>, i: int) -> int
    decreases s.len() - i,
{
    if 0 <= i < s.len() && is_word_char(s[i]) {
        word_end(s, i + 1)
    } else {
        i
    }
}

/// The first index from `i` on that holds a newline, or the end of the source.
pub open spec fn line_end(s: Seq<char>, i: int) -> int
    decreases s.len() - i,
{
    if 0 <= i < s.len() && s[i] != '\n' {
        line_end(s, i + 1)
    } else {
        i
    }
}

/// The first index from `i` on that holds a double quote, or the end of the source.
pub open spec fn quote_end(s: Seq<char>, i: int) -> int
    decreases s.len() - i,
{
    if 0 <= i < s.len() && s[i] != '"' {
        quote_end(s, i + 1)
    } else {
        i
    }
}

/// The end of a number literal that starts at `p`: digits, then optionally a point followed by
/// at least one digit and the digits after it.
pub open spec fn number_end(s: Seq<char>, p: int) -> int {
    let d = digits_end(s, p + 1);
    if peek_at(s, d) == '.' && is_digit(peek_at(s, d + 1)) {
        digits_end(s, d + 1)
    } else {
        d
    }
}

/// The number of newlines in `s[a..b]`.
pub open spec fn newlines(s: Seq<char>, a: int, b: int) -> int
    decreases b - a,
{
    if b <= a {
        0
    } else {
        newlines(s, a, b - 1) + if s[b - 1] == '\n' {
            1int
        } else {
            0int
        }
    }
}

/// The token of a character that stands alone.
pub open spec fn single_char_token(c: char) -> Option<TokenType> {
    if c == '(' {
        Some(TokenType::LeftParen)
    } else if c == ')' {
        Some(TokenType::RightParen)
    } else if c == '{' {
        Some(TokenType::LeftBrace)
    } else if c == '}' {
        Some(TokenType::RightBrace)
    } else if c == ',' {
        Some(TokenType::Comma)
    } else if c == '.' {
        Some(TokenType::Period)
    } else if c == '-' {
        Some(TokenType::Minus)
    } else if c == '+' {
        Some(TokenType::Plus)
    } else if c == ';' {
        Some(TokenType::Semicolon)
    } else if c == '*' {
        Some(TokenType::Asterisk)
    } else if c == '%' {
        Some(TokenType::Mod)
    } else {
        None
    }
}

/// The token of `!`, `=`, `<` or `>`, alone or followed by `=`.
pub open spec fn comparison_token(c: char, with_equal: bool) -> Option<TokenType> {
    if c == '!' {
        Some(if with_equal { TokenType::NotEqual } else { TokenType::Not })
    } else if c == '=' {
        Some(if with_equal { TokenType::EqualEqual } else { TokenType::Equal })
    } else if c == '<' {
        Some(if with_equal { TokenType::LessEqual } else { TokenType::Less })
    } else if c == '>' {
        Some(if with_equal { TokenType::GreaterEqual } else { TokenType::Greater })
    } else {
        None
    }
}

/// What reading from `p` gives: where the next read starts, the kind of the token read (if
/// any) and the message of the error met (if any).
pub struct Lexed {
    pub next: int,
    pub kind: Option<TokenType>,
    pub error: Option<Seq<char>>,
}

pub open spec fn unexpected_message(c: char) -> Seq<char> {
    "Unexpected character: "@.push(c)
}

pub open spec fn unterminated_message() -> Seq<char> {
    "Unterminated string."@
}

/// One step of the scanner at `p`.
pub open spec fn lex_step(s: Seq<char>, p: int) -> Lexed {
    let c = s[p];
    if single_char_token(c) is Some {
        Lexed { next: p + 1, kind: single_char_token(c), error: None }
    } else if c == '/' {
        if peek_at(s, p + 1) == '/' {
            Lexed { next: line_end(s, p + 2), kind: None, error: None }
        } else {
            Lexed { next: p + 1, kind: Some(TokenType::Slash), error: None }
        }
    } else if comparison_token(c, false) is Some {
        if peek_at(s, p + 1) == '=' {
            Lexed { next: p + 2, kind: comparison_token(c, true), error: None }
        } else {
            Lexed { next: p + 1, kind: comparison_token(c, false), error: None }
        }
    } else if c == ' ' || c == '\r' || c == '\t' || c == '\n' {
        Lexed { next: p + 1, kind: None, error: None }
    } else if c == '"' {
        let q = quote_end(s, p + 1);
        if q >= s.len() {
            Lexed { next: s.len() as int, kind: None, error: Some(unterminated_message()) }
        } else {
            Lexed { next: q + 1, kind: Some(TokenType::String), error: None }
        }
    } else if is_digit(c) {
        Lexed { next: number_end(s, p), kind: Some(TokenType::Number), error: None }
    } else if is_letter(c) || c == '_' {
        let e = word_end(s, p + 1);
        let kind = match keyword_type(s.subrange(p, e)) {
            Some(k) => k,
            None => TokenType::Identifier,
        };
        Lexed { next: e, kind: Some(kind), error: None }
    } else {
        Lexed { next: p + 1, kind: None, error: Some(unexpected_message(c)) }
    }
}

/// The value a token read from `s[p..next]` carries: the characters between the quotes of a
/// string, nothing yet for a number (reading it as a double is left to the caller), and `null`
/// for every other token.
pub open spec fn lexed_literal(s: Seq<char>, p: int, next: int, kind: TokenType) -> Option<
    ObjectV,
> {
    if kind == TokenType::String {
        Some(ObjectV::Str(s.subrange(p + 1, next - 1)))
    } else if kind == TokenType::Number {
        None
    } else {
        Some(ObjectV::Null)
    }
}

/// The token read from `s[p..next]`, on the line reached at its end.
pub open spec fn lexed_token(s: Seq<char>, p: int, next: int, kind: TokenType) -> TokenV {
    TokenV {
        token_type: kind,
        lexeme: s.subrange(p, next),
        literal: lexed_literal(s, p, next, kind),
        line: newlines(s, 0, next) as nat,
    }
}

/// The tokens and error reports of scanning `s` from `p` on.
pub struct Scanned {
    pub tokens: Seq<TokenV>,
    pub errors: Seq<Seq<char>>,
}

pub open spec fn scan_from(s: Seq<char>, p: int) -> Scanned
    decreases s.len() - p,
{
    if p < 0 || p >= s.len() {
        Scanned { tokens: Seq::empty(), errors: Seq::empty() }
    } else {
        let st = lex_step(s, p);
        proof {
            lemma_lex_step_advances(s, p);
        }
        let rest = scan_from(s, st.next);
        let tokens = match st.kind {
            Some(k) => seq![lexed_token(s, p, st.next, k)] + rest.tokens,
            None => rest.tokens,
        };
        let errors = match st.error {
            Some(m) => seq![report_text(newlines(s, 0, st.next) as nat, Seq::empty(), m)]
                + rest.errors,
            None => rest.errors,
        };
        Scanned { tokens, errors }
    }
}

/// The end-of-input token that closes every token list.
pub open spec fn eof_token(s: Seq<char>) -> TokenV {
    TokenV {
        token_type: TokenType::EOF,
        lexeme: Seq::empty(),
        literal: Some(ObjectV::Null),
        line: newlines(s, 0, s.len() as int) as nat,
    }
}

/// The tokens of a source: what scanning reads, then the end of input.
pub open spec fn source_tokens(s: Seq<char>) -> Seq<TokenV> {
    scan_from(s, 0).tokens.push(eof_token(s))
}

/// The error reports of scanning a source.
pub open spec fn source_errors(s: Seq<char>) -> Seq<Seq<char>> {
    scan_from(s, 0).errors
}

pub open spec fn token_views(tokens: Seq<Token>) -> Seq<TokenV> {
    tokens.map_values(|t: Token| t@)
}

pub open spec fn string_views(strings: Seq<String>) -> Seq<Seq<char>> {
    strings.map_values(|t: String| t@)
}

// ---------------------------------------------------------------------------------------------
// Facts about the grammar.
// ---------------------------------------------------------------------------------------------

pub proof fn lemma_digits_end(s: Seq<char>, i: int)
    ensures
        i <= digits_end(s, i),
        0 <= i ==> digits_end(s, i) <= s.len() || digits_end(s, i) == i,
        forall|j: int| i <= j < digits_end(s, i) ==> is_digit(#[trigger] s[j]),
    decreases s.len() - i,
{
    if 0 <= i < s.len() && is_digit(s[i]) {
        lemma_digits_end(s, i + 1);
    }
}

pub proof fn lemma_word_end(s: Seq<char>, i: int)
    ensures
        i <= word_end(s, i),
        0 <= i ==> word_end(s, i) <= s.len() || word_end(s, i) == i,
        forall|j: int| i <= j < word_end(s, i) ==> is_word_char(#[trigger] s[j]),
    decreases s.len() - i,
{
    if 0 <= i < s.len() && is_word_char(s[i]) {
        lemma_word_end(s, i + 1);
    }
}

pub proof fn lemma_line_end(s: Seq<char>, i: int)
    ensures
        i <= line_end(s, i),
        0 <= i ==> line_end(s, i) <= s.len() || line_end(s, i) == i,
        forall|j: int| i <= j < line_end(s, i) ==> #[trigger] s[j] != '\n',
    decreases s.len() - i,
{
    if 0 <= i < s.len() && s[i] != '\n' {
        lemma_line_end(s, i + 1);
    }
}

pub proof fn lemma_quote_end(s: Seq<char>, i: int)
    ensures
        i <= quote_end(s, i),
        0 <= i ==> quote_end(s, i) <= s.len() || quote_end(s, i) == i,
        forall|j: int| i <= j < quote_end(s, i) ==> #[trigger] s[j] != '"',
    decreases s.len() - i,
{
    if 0 <= i < s.len() && s[i] != '"' {
        lemma_quote_end(s, i + 1);
    }
}

pub proof fn lemma_lex_step_advances(s: Seq<char>, p: int)
    requires
        0 <= p < s.len(),
    ensures
        p < lex_step(s, p).next <= s.len(),
{
    lemma_digits_end(s, p + 1);
    lemma_word_end(s, p + 1);
    lemma_line_end(s, p + 2);
    lemma_quote_end(s, p + 1);
    let d = digits_end(s, p + 1);
    lemma_digits_end(s, d + 1);
}

pub proof fn lemma_newlines_bound(s: Seq<char>, a: int, b: int)
    ensures
        0 <= newlines(s, a, b),
        a <= b ==> newlines(s, a, b) <= b - a,
    decreases b - a,
{
    if b > a {
        lemma_newlines_bound(s, a, b - 1);
    }
}

// ---------------------------------------------------------------------------------------------
// The scanner.
// ---------------------------------------------------------------------------------------------

/// Turns the text of a program into tokens.
pub struct Scanner {
    source: String,
    chars: Vec<char>,
    tokens: Vec<Token>,
    errors: Vec<String>,
    start: usize,
    current: usize,
    line: usize,
    had_error: bool,
}

/// The number of number tokens among `ts[..n]`.
pub open spec fn numbers_before(ts: Seq<Token>, n: int) -> int
    decreases n,
{
    if n <= 0 {
        0
    } else {
        numbers_before(ts, n - 1) + if ts[n - 1].token_type == TokenType::Number {
            1int
        } else {
            0int
        }
    }
}

proof fn lemma_numbers_before_grow(ts: Seq<Token>, i: int, n: int)
    requires
        0 <= i <= n,
    ensures
        0 <= numbers_before(ts, i) <= numbers_before(ts, n),
    decreases n - i,
{
    if i < n {
        lemma_numbers_before_grow(ts, i, n - 1);
    } else {
        lemma_numbers_before_nonneg(ts, i);
    }
}

proof fn lemma_numbers_before_nonneg(ts: Seq<Token>, n: int)
    ensures
        0 <= numbers_before(ts, n),
    decreases n,
{
    if n > 0 {
        lemma_numbers_before_nonneg(ts, n - 1);
    }
}

/// The number of number tokens in `tokens`: how many values `with_number_values` takes.
pub fn count_numbers(tokens: &Vec<Token>) -> (r: usize)
    ensures
        r == numbers_before(tokens@, tokens.len() as int),
{
    let mut k: usize = 0;
    let mut i: usize = 0;
    while i < tokens.len()
        invariant
            i <= tokens.len(),
            k == numbers_before(tokens@, i as int),
            k <= i,
        decreases tokens.len() - i,
    {
        if tokens[i].token_type == TokenType::Number {
            k += 1;
        }
        i += 1;
    }
    k
}

/// Gives the number tokens their values: the `k`-th number token of `tokens` gets the double
/// whose bits are `values[k]`. Every other token, and the kind, text and line of every token,
/// stay as they were.
pub fn with_number_values(tokens: Vec<Token>, values: &Vec<u64>) -> (r: Vec<Token>)
    requires
        values.len() == numbers_before(tokens@, tokens.len() as int),
    ensures
        r.len() == tokens.len(),
        forall|i: int|
            0 <= i < r.len() && tokens[i].token_type != TokenType::Number ==> #[trigger] r[i]
                == tokens[i],
        forall|i: int|
            0 <= i < r.len() && tokens[i].token_type == TokenType::Number ==> {
                &&& #[trigger] r[i].token_type == TokenType::Number
                &&& r[i].lexeme == tokens[i].lexeme
                &&& r[i].line == tokens[i].line
                &&& r[i].literal == Some(Object::Num(values[numbers_before(tokens@, i)]))
            },
{
    let mut r: Vec<Token> = Vec::new();
    let mut i: usize = 0;
    let mut k: usize = 0;
    while i < tokens.len()
        invariant
            i <= tokens.len(),
            r.len() == i,
            k == numbers_before(tokens@, i as int),
            values.len() == numbers_before(tokens@, tokens.len() as int),
            forall|j: int|
                0 <= j < i && tokens[j].token_type != TokenType::Number ==> #[trigger] r[j]
                    == tokens[j],
            forall|j: int|
                0 <= j < i && tokens[j].token_type == TokenType::Number ==> {
                    &&& #[trigger] r[j].token_type == TokenType::Number
                    &&& r[j].lexeme == tokens[j].lexeme
                    &&& r[j].line == tokens[j].line
                    &&& r[j].literal == Some(Object::Num(values[numbers_before(tokens@, j)]))
                },
        decreases tokens.len() - i,
    {
        proof {
            lemma_numbers_before_grow(tokens@, i as int + 1, tokens.len() as int);
        }
        let t = &tokens[i];
        if t.token_type == TokenType::Number {
            let v = values[k];
            r.push(
                Token {
                    token_type: TokenType::Number,
                    lexeme: t.lexeme.clone(),
                    literal: Some(Object::Num(v)),
                    line: t.line,
                },
            );
            k += 1;
        } else {
            r.push(t.clone());
        }
        i += 1;
    }
    r
}

/// The characters of an ASCII string.
fn ascii_chars(source: &str) -> (r: Vec<char>)
    requires
        source.is_ascii(),
    ensures
        r@ == source@,
        r@.len() <= usize::MAX,
{
    let n = source.unicode_len();
    let mut r: Vec<char> = Vec::new();
    let mut i: usize = 0;
    while i < n
        invariant
            n == source@.len(),
            source.is_ascii(),
            i <= n,
            r@ == source@.subrange(0, i as int),
        decreases n - i,
    {
        let b = source.get_ascii(i);
        let c = b as char;
        proof {
            assert('\0' <= source@[i as int] <= '\u{7f}');
            assert(c == source@[i as int]);
        }
        r.push(c);
        i += 1;
        assert(r@ =~= source@.subrange(0, i as int));
    }
    assert(r@ =~= source@);
    r
}

impl Scanner {
    /// The scanner's state is that of a scan of its source: it has read `source[..current]`.
    pub closed spec fn scanning(&self) -> bool {
        &&& self.chars@ == self.source@
        &&& self.source.is_ascii()
        &&& self.start <= self.current <= self.chars@.len()
        &&& self.chars@.len() <= usize::MAX
        &&& self.had_error == (self.errors@.len() > 0)
    }

    /// The line count is that of the newlines read so far.
    closed spec fn counted(&self) -> bool {
        self.line == newlines(self.chars@, 0, self.current as int)
    }

    /// The state of a scan of `s` that has reached `current`: what it holds, followed by what
    /// the rest of the scan gives, is what the whole scan gives.
    closed spec fn on_track(&self, s: Seq<char>) -> bool {
        &&& self.scanning()
        &&& self.counted()
        &&& self.chars@ == s
        &&& token_views(self.tokens@) + scan_from(s, self.current as int).tokens
            == scan_from(s, 0).tokens
        &&& string_views(self.errors@) + scan_from(s, self.current as int).errors
            == scan_from(s, 0).errors
    }

    /// The text of the source last scanned.
    pub closed spec fn source_text(&self) -> Seq<char> {
        self.source@
    }

    /// The tokens read so far.
    pub closed spec fn tokens_read(&self) -> Seq<TokenV> {
        token_views(self.tokens@)
    }

    /// The error reports made so far.
    pub closed spec fn reports_made(&self) -> Seq<Seq<char>> {
        string_views(self.errors@)
    }

    /// The index in the source that the scan has reached.
    pub closed spec fn position(&self) -> nat {
        self.current as nat
    }

    /// The line count the scan has reached.
    pub closed spec fn line_reached(&self) -> nat {
        self.line as nat
    }

    /// A scanner at the start of an empty source: nothing read, nothing reported.
    pub fn new() -> (r: Self)
        ensures
            r.scanning(),
            r.source_text() == Seq::<char>::empty(),
            r.tokens_read() == Seq::<TokenV>::empty(),
            r.reports_made() == Seq::<Seq<char>>::empty(),
            r.position() == 0,
            r.line_reached() == 0,
    {
        Scanner {
            source: String::new(),
            chars: Vec::new(),
            tokens: Vec::new(),
            errors: Vec::new(),
            start: 0,
            current: 0,
            line: 0,
            had_error: false,
        }
    }

    /// Reads the tokens of `source`, which ends with an end-of-input token.
    ///
    /// When a character cannot start a token, or a string is not closed, the scan goes on
    /// and reports the error; the result is then the reports, in order.
    pub fn scan_tokens(&mut self, source: &str) -> (r: Result<Vec<Token>, Vec<String>>)
        requires
            source.is_ascii(),
        ensures
            final(self).scanning(),
            final(self).source_text() == source@,
            r is Ok <==> source_errors(source@).len() == 0,
            r matches Ok(tokens) ==> token_views(tokens@) == source_tokens(source@),
            r matches Err(reports) ==> string_views(reports@) == source_errors(source@),
    {
        self.source = String::from_str(source);
        self.chars = ascii_chars(source);
        self.tokens = Vec::new();
        self.errors = Vec::new();
        self.start = 0;
        self.current = 0;
        self.line = 0;
        self.had_error = false;
        let ghost s = source@;
        assert(token_views(self.tokens@) + scan_from(s, 0).tokens =~= scan_from(s, 0).tokens);
        assert(string_views(self.errors@) + scan_from(s, 0).errors =~= scan_from(s, 0).errors);
        while !self.is_at_end()
            invariant
                self.on_track(s),
                s == source@,
                self.source@ == s,
            decreases s.len() - self.current,
        {
            self.start = self.current;
            self.scan_token();
        }
        assert(scan_from(s, self.current as int).tokens =~= Seq::<TokenV>::empty());
        assert(scan_from(s, self.current as int).errors =~= Seq::<Seq<char>>::empty());
        assert(token_views(self.tokens@) =~= scan_from(s, 0).tokens);
        assert(string_views(self.errors@) =~= scan_from(s, 0).errors);
        let eof = Token::new(TokenType::EOF, "", Object::Null, self.line);
        proof {
            reveal_strlit("");
            assert(eof@.lexeme =~= Seq::<char>::empty());
            assert(self.current == s.len());
            assert(eof@ == eof_token(s));
        }
        let ghost before = self.tokens@;
        self.tokens.push(eof);
        assert(self.tokens@ == before.push(eof));
        assert(token_views(self.tokens@) =~= source_tokens(s));
        if self.had_error {
            let mut reports = Vec::new();
            std::mem::swap(&mut reports, &mut self.errors);
            self.had_error = false;
            Err(reports)
        } else {
            let mut tokens = Vec::new();
            std::mem::swap(&mut tokens, &mut self.tokens);
            Ok(tokens)
        }
    }

    fn scan_token(&mut self)
        requires
            old(self).on_track(old(self).chars@),
            old(self).start == old(self).current,
            old(self).current < old(self).chars@.len(),
        ensures
            final(self).on_track(old(self).chars@),
            final(self).source == old(self).source,
            final(self).current == lex_step(old(self).chars@, old(self).current as int).next,
            final(self).current > old(self).current,
    {
        let ghost s = self.chars@;
        let ghost p = self.current as int;
        let ghost old_tokens = token_views(self.tokens@);
        let ghost old_errors = string_views(self.errors@);
        proof {
            lemma_lex_step_advances(s, p);
        }
        let c = self.advance();
        assert(newlines(s, 0, p + 1) == newlines(s, 0, p) + if c == '\n' {
            1int
        } else {
            0int
        });
        let token = if c == '(' {
            Some(TokenType::LeftParen)
        } else if c == ')' {
            Some(TokenType::RightParen)
        } else if c == '{' {
            Some(TokenType::LeftBrace)
        } else if c == '}' {
            Some(TokenType::RightBrace)
        } else if c == ',' {
            Some(TokenType::Comma)
        } else if c == '.' {
            Some(TokenType::Period)
        } else if c == '-' {
            Some(TokenType::Minus)
        } else if c == '+' {
            Some(TokenType::Plus)
        } else if c == ';' {
            Some(TokenType::Semicolon)
        } else if c == '*' {
            Some(TokenType::Asterisk)
        } else if c == '/' {
            if self.match_next('/') {
                assert(newlines(s, 0, p + 2) == newlines(s, 0, p + 1));
                while self.peek() != '\n' && !self.is_at_end()
                    invariant
                        self.scanning(),
                        self.counted(),
                        self.chars@ == s,
                        self.chars == old(self).chars,
                        self.source == old(self).source,
                        self.tokens == old(self).tokens,
                        self.errors == old(self).errors,
                        self.start == p,
                        p + 2 <= self.current <= s.len(),
                        line_end(s, p + 2) == line_end(s, self.current as int),
                    decreases s.len() - self.current,
                {
                    self.advance();
                }
                None
            } else {
                Some(TokenType::Slash)
            }
        } else if c == '%' {
            Some(TokenType::Mod)
        } else if c == '!' {
            Some(
                if self.match_next('=') {
                    TokenType::NotEqual
                } else {
                    TokenType::Not
                },
            )
        } else if c == '=' {
            Some(
                if self.match_next('=') {
                    TokenType::EqualEqual
                } else {
                    TokenType::Equal
                },
            )
        } else if c == '<' {
            Some(
                if self.match_next('=') {
                    TokenType::LessEqual
                } else {
                    TokenType::Less
                },
            )
        } else if c == '>' {
            Some(
                if self.match_next('=') {
                    TokenType::GreaterEqual
                } else {
                    TokenType::Greater
                },
            )
        } else if c == ' ' || c == '\r' || c == '\t' {
            None
        } else if c == '\n' {
            proof {
                lemma_newlines_bound(s, 0, p);
            }
            self.line += 1;
            None
        } else if c == '"' {
            self.handle_string();
            None
        } else if '0' <= c && c <= '9' {
            self.handle_number();
            None
        } else if ('a' <= c && c <= 'z') || ('A' <= c && c <= 'Z') || c == '_' {
            self.handle_identifier();
            None
        } else {
            let mut message = String::from_str("Unexpected character: ");
            message.append(self.source.as_str().substring_ascii(self.start, self.current));
            assert(message@ =~= unexpected_message(c));
            self.error(message.as_str());
            None
        };
        if let Some(token) = token {
            self.add_token(token);
        }
        proof {
            let st = lex_step(s, p);
            let rest = scan_from(s, st.next);
            assert(scan_from(s, p).tokens == match st.kind {
                Some(k) => seq![lexed_token(s, p, st.next, k)] + rest.tokens,
                None => rest.tokens,
            });
            assert(self.current == st.next);
            assert(token_views(self.tokens@) == match st.kind {
                Some(k) => old_tokens.push(lexed_token(s, p, st.next, k)),
                None => old_tokens,
            });
            assert(string_views(self.errors@) == match st.error {
                Some(m) => old_errors.push(
                    report_text(newlines(s, 0, st.next) as nat, Seq::empty(), m),
                ),
                None => old_errors,
            });
            assert(token_views(self.tokens@) + rest.tokens =~= scan_from(s, 0).tokens);
            assert(string_views(self.errors@) + rest.errors =~= scan_from(s, 0).errors);
        }
    }

    fn is_at_end(&self) -> (r: bool)
        requires
            self.scanning(),
        ensures
            r == (self.current >= self.chars@.len()),
    {
        self.current >= self.chars.len()
    }

    fn advance(&mut self) -> (c: char)
        requires
            old(self).scanning(),
            old(self).current < old(self).chars@.len(),
        ensures
            final(self).scanning(),
            c == old(self).chars@[old(self).current as int],
            final(self).current == old(self).current + 1,
            final(self).source == old(self).source,
            final(self).chars == old(self).chars,
            final(self).tokens == old(self).tokens,
            final(self).errors == old(self).errors,
            final(self).start == old(self).start,
            final(self).line == old(self).line,
            final(self).had_error == old(self).had_error,
    {
        let current = self.current;
        self.current += 1;
        self.chars[current]
    }

    fn match_next(&mut self, expected: char) -> (r: bool)
        requires
            old(self).scanning(),
            expected != '\n',
        ensures
            final(self).scanning(),
            r == (peek_at(old(self).chars@, old(self).current as int) == expected
                && old(self).current < old(self).chars@.len()),
            final(self).current == old(self).current + if r {
                1int
            } else {
                0int
            },
            final(self).source == old(self).source,
            final(self).chars == old(self).chars,
            final(self).tokens == old(self).tokens,
            final(self).errors == old(self).errors,
            final(self).start == old(self).start,
            final(self).line == old(self).line,
            final(self).had_error == old(self).had_error,
    {
        if self.is_at_end() {
            return false;
        }
        if self.chars[self.current] != expected {
            false
        } else {
            self.current += 1;
            true
        }
    }

    fn peek(&self) -> (c: char)
        requires
            self.scanning(),
        ensures
            c == peek_at(self.chars@, self.current as int),
    {
        if self.is_at_end() {
            '\0'
        } else {
            self.chars[self.current]
        }
    }

    fn peek_next(&self) -> (c: char)
        requires
            self.scanning(),
        ensures
            c == peek_at(self.chars@, self.current + 1),
    {
        if self.current >= self.chars.len() || self.current + 1 >= self.chars.len() {
            '\0'
        } else {
            self.chars[self.current + 1]
        }
    }

    fn add_token(&mut self, token_type: TokenType)
        requires
            old(self).scanning(),
        ensures
            final(self).scanning(),
            final(self).tokens@ == old(self).tokens@.push(final(self).tokens@.last()),
            final(self).tokens@.last()@ == (TokenV {
                token_type,
                lexeme: old(self).chars@.subrange(old(self).start as int, old(self).current as int),
                literal: Some(ObjectV::Null),
                line: old(self).line as nat,
            }),
            final(self).source == old(self).source,
            final(self).chars == old(self).chars,
            final(self).errors == old(self).errors,
            final(self).start == old(self).start,
            final(self).current == old(self).current,
            final(self).line == old(self).line,
            final(self).had_error == old(self).had_error,
    {
        self.add_token_with_literal(token_type, Some(Object::Null));
    }

    fn add_token_with_literal(&mut self, token_type: TokenType, literal: Option<Object>)
        requires
            old(self).scanning(),
        ensures
            final(self).scanning(),
            final(self).tokens@ == old(self).tokens@.push(final(self).tokens@.last()),
            final(self).tokens@.last()@ == (TokenV {
                token_type,
                lexeme: old(self).chars@.subrange(old(self).start as int, old(self).current as int),
                literal: crate::token::literal_view(literal),
                line: old(self).line as nat,
            }),
            final(self).source == old(self).source,
            final(self).chars == old(self).chars,
            final(self).errors == old(self).errors,
            final(self).start == old(self).start,
            final(self).current == old(self).current,
            final(self).line == old(self).line,
            final(self).had_error == old(self).had_error,
    {
        let text = self.source.as_str().substring_ascii(self.start, self.current);
        let token = Token {
            token_type,
            lexeme: String::from_str(text),
            literal,
            line: self.line,
        };
        self.tokens.push(token);
    }

    fn handle_string(&mut self)
        requires
            old(self).scanning(),
            old(self).counted(),
            old(self).current == old(self).start + 1,
            old(self).current <= old(self).chars@.len(),
            old(self).chars@[old(self).start as int] == '"',
        ensures
            final(self).scanning(),
            final(self).counted(),
            ({
                let s = old(self).chars@;
                let p = old(self).start as int;
                let q = quote_end(s, p + 1);
                if q >= s.len() {
                    &&& final(self).current == s.len()
                    &&& final(self).tokens == old(self).tokens
                    &&& string_views(final(self).errors@) == string_views(old(self).errors@).push(
                        report_text(newlines(s, 0, s.len() as int) as nat, Seq::empty(), unterminated_message()),
                    )
                } else {
                    &&& final(self).current == q + 1
                    &&& final(self).errors == old(self).errors
                    &&& token_views(final(self).tokens@) == token_views(old(self).tokens@).push(
                        lexed_token(s, p, q + 1, TokenType::String),
                    )
                }
            }),
            final(self).source == old(self).source,
            final(self).chars == old(self).chars,
            final(self).start == old(self).start,
    {
        let ghost s = self.chars@;
        let ghost p = self.start as int;
        while self.peek() != '"' && !self.is_at_end()
            invariant
                self.scanning(),
                self.counted(),
                self.chars@ == s,
                self.chars == old(self).chars,
                self.source == old(self).source,
                self.tokens == old(self).tokens,
                self.errors == old(self).errors,
                self.start == p,
                p + 1 <= self.current <= s.len(),
                quote_end(s, p + 1) == quote_end(s, self.current as int),
            decreases s.len() - self.current,
        {
            if self.peek() == '\n' {
                proof {
                    lemma_newlines_bound(s, 0, self.current as int);
                }
                self.line += 1;
                let ghost cur = self.current;
                self.current += 1;
                assert(self.line == newlines(s, 0, self.current as int));
            } else {
                self.advance();
            }
        }
        if self.is_at_end() {
            self.error("Unterminated string.");
            assert(string_views(self.errors@) =~= string_views(old(self).errors@).push(
                report_text(newlines(s, 0, s.len() as int) as nat, Seq::empty(), unterminated_message()),
            ));
            return ;
        }
        self.advance();
        let value = self.source.as_str().substring_ascii(self.start + 1, self.current - 1);
        self.add_token_with_literal(TokenType::String, Some(Object::Str(String::from_str(value))));
        assert(token_views(self.tokens@) =~= token_views(old(self).tokens@).push(
            lexed_token(s, p, self.current as int, TokenType::String),
        ));
    }

    fn handle_number(&mut self)
        requires
            old(self).scanning(),
            old(self).counted(),
            old(self).current == old(self).start + 1,
            old(self).current <= old(self).chars@.len(),
        ensures
            final(self).scanning(),
            final(self).counted(),
            final(self).current == number_end(old(self).chars@, old(self).start as int),
            final(self).errors == old(self).errors,
            token_views(final(self).tokens@) == token_views(old(self).tokens@).push(
                lexed_token(
                    old(self).chars@,
                    old(self).start as int,
                    final(self).current as int,
                    TokenType::Number,
                ),
            ),
            final(self).source == old(self).source,
            final(self).chars == old(self).chars,
            final(self).start == old(self).start,
    {
        let ghost s = self.chars@;
        let ghost p = self.start as int;
        while '0' <= self.peek() && self.peek() <= '9'
            invariant
                self.scanning(),
                self.counted(),
                self.chars@ == s,
                self.chars == old(self).chars,
                self.source == old(self).source,
                self.tokens == old(self).tokens,
                self.errors == old(self).errors,
                self.start == p,
                p + 1 <= self.current <= s.len(),
                digits_end(s, p + 1) == digits_end(s, self.current as int),
            decreases s.len() - self.current,
        {
            self.advance();
        }
        let next = self.peek_next();
        if self.peek() == '.' && '0' <= next && next <= '9' {
            self.advance();
            while '0' <= self.peek() && self.peek() <= '9'
                invariant
                    self.scanning(),
                    self.counted(),
                    self.chars@ == s,
                    self.chars == old(self).chars,
                    self.source == old(self).source,
                    self.tokens == old(self).tokens,
                    self.errors == old(self).errors,
                    self.start == p,
                    p + 1 <= self.current <= s.len(),
                    number_end(s, p) == digits_end(s, self.current as int),
                decreases s.len() - self.current,
            {
                self.advance();
            }
        }
        self.add_token_with_literal(TokenType::Number, None);
        assert(token_views(self.tokens@) =~= token_views(old(self).tokens@).push(
            lexed_token(s, p, self.current as int, TokenType::Number),
        ));
    }

    fn handle_identifier(&mut self)
        requires
            old(self).scanning(),
            old(self).counted(),
            old(self).current == old(self).start + 1,
            old(self).current <= old(self).chars@.len(),
        ensures
            final(self).scanning(),
            final(self).counted(),
            final(self).current == word_end(old(self).chars@, old(self).start + 1),
            final(self).errors == old(self).errors,
            ({
                let s = old(self).chars@;
                let p = old(self).start as int;
                let e = final(self).current as int;
                let kind = match keyword_type(s.subrange(p, e)) {
                    Some(k) => k,
                    None => TokenType::Identifier,
                };
                token_views(final(self).tokens@) == token_views(old(self).tokens@).push(
                    lexed_token(s, p, e, kind),
                )
            }),
            final(self).source == old(self).source,
            final(self).chars == old(self).chars,
            final(self).start == old(self).start,
    {
        let ghost s = self.chars@;
        let ghost p = self.start as int;
        loop
            invariant
                self.scanning(),
                self.counted(),
                self.chars@ == s,
                self.chars == old(self).chars,
                self.source == old(self).source,
                self.tokens == old(self).tokens,
                self.errors == old(self).errors,
                self.start == p,
                p + 1 <= self.current <= s.len(),
                word_end(s, p + 1) == word_end(s, self.current as int),
            ensures
                self.scanning(),
                self.counted(),
                self.chars@ == s,
                self.chars == old(self).chars,
                self.source == old(self).source,
                self.tokens == old(self).tokens,
                self.errors == old(self).errors,
                self.start == p,
                self.current == word_end(s, p + 1),
            decreases s.len() - self.current,
        {
            let c = self.peek();
            if ('a' <= c && c <= 'z') || ('A' <= c && c <= 'Z') || ('0' <= c && c <= '9') || c
                == '_' {
                self.advance();
            } else {
                break ;
            }
        }
        let token_type = match keyword(&self.chars, self.start, self.current) {
            None => TokenType::Identifier,
            Some(v) => v,
        };
        self.add_token(token_type);
        let ghost e = self.current as int;
        assert(token_views(self.tokens@) =~= token_views(old(self).tokens@).push(
            lexed_token(s, p, e, token_type),
        ));
    }

    fn error(&mut self, message: &str)
        requires
            old(self).scanning(),
        ensures
            final(self).scanning(),
            string_views(final(self).errors@) == string_views(old(self).errors@).push(
                report_text(old(self).line as nat, Seq::empty(), message@),
            ),
            final(self).source == old(self).source,
            final(self).chars == old(self).chars,
            final(self).tokens == old(self).tokens,
            final(self).start == old(self).start,
            final(self).current == old(self).current,
            final(self).line == old(self).line,
    {
        self.had_error = true;
        let report = Logger::error(self.line, message);
        self.errors.push(report);
        assert(string_views(self.errors@) =~= string_views(old(self).errors@).push(
            report_text(old(self).line as nat, Seq::empty(), message@),
        ));
    }
}

} // verus!

verus! {

pub proof fn lemma_newlines_monotone(s: Seq<char>, a: int, b: int)
    requires
        a <= b,
    ensures
        newlines(s, 0, a) <= newlines(s, 0, b),
    decreases b - a,
{
    if a < b {
        lemma_newlines_monotone(s, a, b - 1);
    }
}

/// What every token read from `p` on is like: never the end of input, a string carries its
/// text and a number nothing yet, and lines only grow, between the lines at `p` and at the
/// end of the source.
pub proof fn lemma_scan_from_tokens(s: Seq<char>, p: int)
    requires
        0 <= p <= s.len(),
    ensures
        ({
            let ts = scan_from(s, p).tokens;
            &&& forall|i: int| 0 <= i < ts.len() ==> #[trigger] ts[i].token_type != TokenType::EOF
            &&& forall|i: int|
                0 <= i < ts.len() && #[trigger] ts[i].token_type == TokenType::String
                    ==> ts[i].literal is Some
            &&& forall|i: int|
                0 <= i < ts.len() && #[trigger] ts[i].token_type == TokenType::Number
                    ==> ts[i].literal is None
            &&& forall|i: int|
                0 <= i < ts.len() ==> newlines(s, 0, p) <= #[trigger] ts[i].line <= newlines(
                    s,
                    0,
                    s.len() as int,
                )
            &&& forall|i: int, j: int| 0 <= i < j < ts.len() ==> #[trigger] ts[i].line <= #[trigger] ts[j].line
        }),
    decreases s.len() - p,
{
    if p < s.len() {
        let st = lex_step(s, p);
        lemma_lex_step_advances(s, p);
        lemma_scan_from_tokens(s, st.next);
        lemma_newlines_monotone(s, p, st.next);
        lemma_newlines_monotone(s, st.next, s.len() as int);
        lemma_newlines_bound(s, 0, st.next);
        lemma_newlines_bound(s, 0, p);
        let rest = scan_from(s, st.next).tokens;
        let ts = scan_from(s, p).tokens;
        match st.kind {
            Some(k) => {
                let t = lexed_token(s, p, st.next, k);
                assert(ts == seq![t] + rest);
                assert(k != TokenType::EOF) by {
                    let c = s[p];
                    let w = s.subrange(p, word_end(s, p + 1));
                    assert(keyword_type(w) != Some(TokenType::EOF));
                }
                assert forall|i: int| 0 <= i < ts.len() implies #[trigger] ts[i].token_type
                    != TokenType::EOF by {
                    if i > 0 {
                        assert(ts[i] == rest[i - 1]);
                    }
                }
                assert forall|i: int|
                    0 <= i < ts.len() && #[trigger] ts[i].token_type == TokenType::String implies ts[i].literal is Some by {
                    if i > 0 {
                        assert(ts[i] == rest[i - 1]);
                    }
                }
                assert forall|i: int|
                    0 <= i < ts.len() && #[trigger] ts[i].token_type == TokenType::Number implies ts[i].literal is None by {
                    if i > 0 {
                        assert(ts[i] == rest[i - 1]);
                    }
                }
                assert forall|i: int|
                    0 <= i < ts.len() implies newlines(s, 0, p) <= #[trigger] ts[i].line
                        <= newlines(s, 0, s.len() as int) by {
                    if i > 0 {
                        assert(ts[i] == rest[i - 1]);
                    }
                }
                assert forall|i: int, j: int| 0 <= i < j < ts.len() implies #[trigger] ts[i].line
                    <= #[trigger] ts[j].line by {
                    assert(ts[j] == rest[j - 1]);
                    if i > 0 {
                        assert(ts[i] == rest[i - 1]);
                    }
                }
            },
            None => {
                assert(ts == rest);
            },
        }
    }
}

/// The characters that separate tokens and are otherwise passed over.
pub open spec fn is_blank(c: char) -> bool {
    c == ' ' || c == '\r' || c == '\t' || c == '\n'
}

/// The characters of a token read at `p`, but for a string, hold no blank.
proof fn lemma_lexeme_unblank(s: Seq<char>, p: int)
    requires
        0 <= p < s.len(),
        lex_step(s, p).kind is Some,
        lex_step(s, p).kind != Some(TokenType::String),
    ensures
        forall|j: int| p <= j < lex_step(s, p).next ==> !is_blank(#[trigger] s[j]),
{
    lemma_digits_end(s, p + 1);
    lemma_word_end(s, p + 1);
    let d = digits_end(s, p + 1);
    lemma_digits_end(s, d + 1);
}

/// Oil does not see white space: a blank starts no token and no report, so scanning from it
/// reads what scanning from the next character reads; and no token but a string holds a blank.
pub proof fn lemma_white_space_unseen(s: Seq<char>, p: int)
    requires
        0 <= p <= s.len(),
    ensures
        p < s.len() && is_blank(s[p]) ==> scan_from(s, p) == scan_from(s, p + 1),
        forall|i: int, j: int|
            0 <= i < scan_from(s, p).tokens.len() && scan_from(s, p).tokens[i].token_type
                != TokenType::String && 0 <= j < scan_from(s, p).tokens[i].lexeme.len()
                ==> !is_blank(#[trigger] scan_from(s, p).tokens[i].lexeme[j]),
    decreases s.len() - p,
{
    if p < s.len() {
        let st = lex_step(s, p);
        lemma_lex_step_advances(s, p);
        lemma_white_space_unseen(s, st.next);
        let rest = scan_from(s, st.next).tokens;
        let ts = scan_from(s, p).tokens;
        match st.kind {
            Some(k) => {
                let t = lexed_token(s, p, st.next, k);
                assert(ts == seq![t] + rest);
                if k != TokenType::String {
                    lemma_lexeme_unblank(s, p);
                }
                assert forall|i: int, j: int|
                    0 <= i < ts.len() && ts[i].token_type != TokenType::String && 0 <= j
                        < ts[i].lexeme.len() implies !is_blank(#[trigger] ts[i].lexeme[j]) by {
                    if i > 0 {
                        assert(ts[i] == rest[i - 1]);
                    } else {
                        assert(ts[i].lexeme[j] == s[p + j]);
                    }
                }
            },
            None => {
                assert(ts == rest);
            },
        }
    }
}

/// The tokens of any source end with the end of input, which occurs nowhere else; string
/// tokens carry their text and number tokens are left for their value to be read; and the
/// lines of the tokens never go down.
pub proof fn lemma_source_tokens(s: Seq<char>)
    ensures
        ({
            let ts = source_tokens(s);
            &&& ts.len() > 0
            &&& ts.last().token_type == TokenType::EOF
            &&& forall|i: int| 0 <= i < ts.len() - 1 ==> #[trigger] ts[i].token_type != TokenType::EOF
            &&& forall|i: int|
                0 <= i < ts.len() && #[trigger] ts[i].token_type == TokenType::String
                    ==> ts[i].literal is Some
            &&& forall|i: int|
                0 <= i < ts.len() && #[trigger] ts[i].token_type == TokenType::Number
                    ==> ts[i].literal is None
            &&& forall|i: int, j: int| 0 <= i < j < ts.len() ==> #[trigger] ts[i].line <= #[trigger] ts[j].line
        }),
{
    lemma_scan_from_tokens(s, 0);
    let body = scan_from(s, 0).tokens;
    let ts = source_tokens(s);
    assert forall|i: int| 0 <= i < ts.len() - 1 implies #[trigger] ts[i].token_type != TokenType::EOF by {
        assert(ts[i] == body[i]);
    }
    assert forall|i: int|
        0 <= i < ts.len() && #[trigger] ts[i].token_type == TokenType::String implies ts[i].literal is Some by {
        if i < body.len() {
            assert(ts[i] == body[i]);
        }
    }
    assert forall|i: int|
        0 <= i < ts.len() && #[trigger] ts[i].token_type == TokenType::Number implies ts[i].literal is None by {
        if i < body.len() {
            assert(ts[i] == body[i]);
        }
    }
    assert forall|i: int, j: int| 0 <= i < j < ts.len() implies #[trigger] ts[i].line <= #[trigger] ts[j].line by {
        assert(ts[i] == body[i]);
        if j < body.len() {
            assert(ts[j] == body[j]);
        }
    }
}

} // verus!

verus! {

proof fn lemma_word_runs_to_end(s: Seq<char>, i: int)
    requires
        0 <= i <= s.len(),
        forall|j: int| i <= j < s.len() ==> is_word_char(#[trigger] s[j]),
    ensures
        word_end(s, i) == s.len(),
    decreases s.len() - i,
{
    if i < s.len() {
        lemma_word_runs_to_end(s, i + 1);
    }
}

proof fn lemma_no_newlines(s: Seq<char>, b: int)
    requires
        0 <= b <= s.len(),
        forall|j: int| 0 <= j < b ==> #[trigger] s[j] != '\n',
    ensures
        newlines(s, 0, b) == 0,
    decreases b,
{
    if b > 0 {
        lemma_no_newlines(s, b - 1);
    }
}

/// A word is read whole, as one token: a source that is one word (an ASCII letter, upper or
/// lower case, or `_`, then ASCII letters, digits and `_`) scans to a single token whose
/// text is the whole word, an identifier unless the word is a keyword, with no report.
pub proof fn lemma_word_is_one_token(s: Seq<char>)
    requires
        s.len() > 0,
        ('a' <= s[0] <= 'z') || ('A' <= s[0] <= 'Z') || s[0] == '_',
        forall|j: int|
            0 <= j < s.len() ==> ('a' <= #[trigger] s[j] <= 'z') || ('A' <= s[j] <= 'Z') || ('0'
                <= s[j] <= '9') || s[j] == '_',
    ensures
        source_tokens(s) == seq![
            TokenV {
                token_type: match keyword_type(s) {
                    Some(k) => k,
                    None => TokenType::Identifier,
                },
                lexeme: s,
                literal: Some(ObjectV::Null),
                line: 0,
            },
            eof_token(s),
        ],
        source_errors(s).len() == 0,
        keyword_type(s) is None ==> source_tokens(s)[0].token_type == TokenType::Identifier,
{
    assert forall|j: int| 1 <= j < s.len() implies is_word_char(#[trigger] s[j]) by {
        assert(('a' <= s[j] <= 'z') || ('A' <= s[j] <= 'Z') || ('0' <= s[j] <= '9') || s[j]
            == '_');
    }
    lemma_word_runs_to_end(s, 1);
    assert forall|j: int| 0 <= j < s.len() implies #[trigger] s[j] != '\n' by {
        assert(('a' <= s[j] <= 'z') || ('A' <= s[j] <= 'Z') || ('0' <= s[j] <= '9') || s[j]
            == '_');
    }
    lemma_no_newlines(s, s.len() as int);
    let st = lex_step(s, 0);
    assert(st.next == s.len());
    assert(s.subrange(0, s.len() as int) =~= s);
    let kind = match keyword_type(s) {
        Some(k) => k,
        None => TokenType::Identifier,
    };
    assert(st.kind == Some(kind));
    assert(st.error is None);
    assert(kind != TokenType::String && kind != TokenType::Number);
    assert(scan_from(s, s.len() as int).tokens.len() == 0);
    assert(scan_from(s, 0).tokens =~= seq![lexed_token(s, 0, s.len() as int, kind)]);
    assert(scan_from(s, 0).errors =~= Seq::<Seq<char>>::empty());
}

} // verus!

verus! {

proof fn lemma_digits_run_to(s: Seq<char>, i: int, e: int)
    requires
        0 <= i <= e <= s.len(),
        forall|j: int| i <= j < e ==> ('0' <= #[trigger] s[j] <= '9'),
        e < s.len() ==> !('0' <= s[e] <= '9'),
    ensures
        digits_end(s, i) == e,
    decreases e - i,
{
    if i < e {
        lemma_digits_run_to(s, i + 1, e);
    }
}

/// A number is read whole, as one token: a source of decimal digits, optionally followed by
/// a point and more digits, scans to a single number token whose text is the whole source,
/// with no report; its value is left to be read.
pub proof fn lemma_number_is_one_token(s: Seq<char>, point: int)
    requires
        0 < point <= s.len(),
        point == s.len() || (s[point] == '.' && point + 1 < s.len()),
        forall|j: int| 0 <= j < s.len() && j != point ==> ('0' <= #[trigger] s[j] <= '9'),
    ensures
        source_tokens(s) == seq![
            TokenV { token_type: TokenType::Number, lexeme: s, literal: None, line: 0 },
            eof_token(s),
        ],
        source_errors(s).len() == 0,
{
    lemma_digits_run_to(s, 1, point);
    if point < s.len() {
        lemma_digits_run_to(s, point + 1, s.len() as int);
    }
    assert forall|j: int| 0 <= j < s.len() implies #[trigger] s[j] != '\n' by {
        if j != point {
            assert('0' <= s[j] <= '9');
        }
    }
    lemma_no_newlines(s, s.len() as int);
    let st = lex_step(s, 0);
    assert('0' <= s[0] <= '9');
    assert(st.next == s.len());
    assert(s.subrange(0, s.len() as int) =~= s);
    assert(st.kind == Some(TokenType::Number));
    assert(scan_from(s, s.len() as int).tokens.len() == 0);
    assert(scan_from(s, 0).tokens =~= seq![lexed_token(s, 0, s.len() as int, TokenType::Number)]);
    assert(scan_from(s, 0).errors =~= Seq::<Seq<char>>::empty());
}

/// A string is read whole, as one token that carries the text between its quotes: a source
/// that is a double quote, text without a double quote, and a double quote scans to a
/// single string token with no report.
pub proof fn lemma_string_is_one_token(text: Seq<char>)
    requires
        forall|j: int| 0 <= j < text.len() ==> #[trigger] text[j] != '"',
    ensures
        ({
            let s = seq!['"'] + text + seq!['"'];
            &&& source_tokens(s) == seq![
                TokenV {
                    token_type: TokenType::String,
                    lexeme: s,
                    literal: Some(ObjectV::Str(text)),
                    line: newlines(s, 0, s.len() as int) as nat,
                },
                eof_token(s),
            ]
            &&& source_errors(s).len() == 0
        }),
{
    let s = seq!['"'] + text + seq!['"'];
    assert forall|j: int| 1 <= j < s.len() - 1 implies #[trigger] s[j] != '"' by {
        assert(s[j] == text[j - 1]);
    }
    lemma_quote_runs_to(s, 1, s.len() - 1);
    lemma_newlines_bound(s, 0, s.len() as int);
    let st = lex_step(s, 0);
    assert(st.next == s.len());
    assert(s.subrange(0, s.len() as int) =~= s);
    assert(s.subrange(1, s.len() - 1) =~= text);
    assert(scan_from(s, s.len() as int).tokens.len() == 0);
    assert(scan_from(s, 0).tokens =~= seq![lexed_token(s, 0, s.len() as int, TokenType::String)]);
    assert(scan_from(s, 0).errors =~= Seq::<Seq<char>>::empty());
}

proof fn lemma_quote_runs_to(s: Seq<char>, i: int, e: int)
    requires
        0 <= i <= e < s.len(),
        forall|j: int| i <= j < e ==> #[trigger] s[j] != '"',
        s[e] == '"',
    ensures
        quote_end(s, i) == e,
    decreases e - i,
{
    if i < e {
        lemma_quote_runs_to(s, i + 1, e);
    }
}

/// A comment is not seen: `//` and text without a newline scans to no token and no report.
pub proof fn lemma_comment_is_unseen(text: Seq<char>)
    requires
        forall|j: int| 0 <= j < text.len() ==> #[trigger] text[j] != '\n',
    ensures
        scan_from(seq!['/', '/'] + text, 0).tokens.len() == 0,
        scan_from(seq!['/', '/'] + text, 0).errors.len() == 0,
{
    let s = seq!['/', '/'] + text;
    assert forall|j: int| 2 <= j < s.len() implies #[trigger] s[j] != '\n' by {
        assert(s[j] == text[j - 2]);
    }
    lemma_line_runs_to_end(s, 2);
    assert(lex_step(s, 0).next == s.len());
    assert(scan_from(s, s.len() as int).tokens.len() == 0);
}

proof fn lemma_line_runs_to_end(s: Seq<char>, i: int)
    requires
        0 <= i <= s.len(),
        forall|j: int| i <= j < s.len() ==> #[trigger] s[j] != '\n',
    ensures
        line_end(s, i) == s.len(),
    decreases s.len() - i,
{
    if i < s.len() {
        lemma_line_runs_to_end(s, i + 1);
    }
}

} // verus!
