use vstd::prelude::*;

use crate::object::ObjectV;
use crate::scanner::{
    comparison_token, digits_end, is_blank, is_digit, is_letter, is_word_char, lemma_digits_end,
    lemma_lex_step_advances, lemma_line_end, lemma_quote_end, lemma_white_space_unseen,
    lemma_word_end, lex_step, line_end, peek_at, quote_end, scan_from, single_char_token,
    source_errors, source_tokens, word_end, Scanned,
};
use crate::token::{TokenType, TokenV};

verus! {

// ---------------------------------------------------------------------------------------------
// Blanks between tokens: putting one in changes what is read only in its lines.
// ---------------------------------------------------------------------------------------------

/// `s` with the blank `b` put in at `k`.
pub open spec fn with_blank(s: Seq<char>, k: int, b: char) -> Seq<char> {
    s.subrange(0, k) + seq![b] + s.subrange(k, s.len() as int)
}

/// Whether scanning `s` from `p` comes to a step at `k`: `k` lies between two tokens, or
/// before the first or after the last, and not inside a token, a string or a comment.
pub open spec fn scan_reaches(s: Seq<char>, p: int, k: int) -> bool
    decreases s.len() - p,
{
    if p == k {
        true
    } else if p < 0 || p >= s.len() || k < p {
        false
    } else {
        proof {
            lemma_lex_step_advances(s, p);
        }
        scan_reaches(s, lex_step(s, p).next, k)
    }
}

/// What a token is but for its line: its kind, its text and its value.
pub open spec fn token_shape(t: TokenV) -> (TokenType, Seq<char>, Option<ObjectV>) {
    (t.token_type, t.lexeme, t.literal)
}

pub open spec fn token_shapes(ts: Seq<TokenV>) -> Seq<(TokenType, Seq<char>, Option<ObjectV>)> {
    ts.map_values(|t: TokenV| token_shape(t))
}

/// Two scans read the same tokens but for their lines, and as many errors.
pub open spec fn alike(a: Scanned, b: Scanned) -> bool {
    token_shapes(a.tokens) == token_shapes(b.tokens) && a.errors.len() == b.errors.len()
}

proof fn lemma_with_blank_at(s: Seq<char>, k: int, b: char)
    requires
        0 <= k <= s.len(),
    ensures
        with_blank(s, k, b).len() == s.len() + 1,
        with_blank(s, k, b)[k] == b,
        forall|i: int| 0 <= i < k ==> #[trigger] with_blank(s, k, b)[i] == s[i],
        forall|i: int| k < i <= s.len() ==> #[trigger] with_blank(s, k, b)[i] == s[i - 1],
{
}

proof fn lemma_shapes_cons(t: TokenV, rest: Seq<TokenV>)
    ensures
        token_shapes(seq![t] + rest) == seq![token_shape(t)] + token_shapes(rest),
{
    assert(token_shapes(seq![t] + rest) =~= seq![token_shape(t)] + token_shapes(rest));
}

// What the ends of runs are after the blank: one further on.

proof fn lemma_digits_shift(s: Seq<char>, k: int, b: char, i: int)
    requires
        0 <= k <= i,
        k <= s.len(),
    ensures
        digits_end(with_blank(s, k, b), i + 1) == digits_end(s, i) + 1,
    decreases s.len() - i,
{
    lemma_with_blank_at(s, k, b);
    if i < s.len() {
        assert(with_blank(s, k, b)[i + 1] == s[i]);
        lemma_digits_shift(s, k, b, i + 1);
    }
}

proof fn lemma_word_shift(s: Seq<char>, k: int, b: char, i: int)
    requires
        0 <= k <= i,
        k <= s.len(),
    ensures
        word_end(with_blank(s, k, b), i + 1) == word_end(s, i) + 1,
    decreases s.len() - i,
{
    lemma_with_blank_at(s, k, b);
    if i < s.len() {
        assert(with_blank(s, k, b)[i + 1] == s[i]);
        lemma_word_shift(s, k, b, i + 1);
    }
}

proof fn lemma_line_shift(s: Seq<char>, k: int, b: char, i: int)
    requires
        0 <= k <= i,
        k <= s.len(),
    ensures
        line_end(with_blank(s, k, b), i + 1) == line_end(s, i) + 1,
    decreases s.len() - i,
{
    lemma_with_blank_at(s, k, b);
    if i < s.len() {
        assert(with_blank(s, k, b)[i + 1] == s[i]);
        lemma_line_shift(s, k, b, i + 1);
    }
}

proof fn lemma_quote_shift(s: Seq<char>, k: int, b: char, i: int)
    requires
        0 <= k <= i,
        k <= s.len(),
    ensures
        quote_end(with_blank(s, k, b), i + 1) == quote_end(s, i) + 1,
    decreases s.len() - i,
{
    lemma_with_blank_at(s, k, b);
    if i < s.len() {
        assert(with_blank(s, k, b)[i + 1] == s[i]);
        lemma_quote_shift(s, k, b, i + 1);
    }
}

// What the ends of runs are before the blank: the same, but where a comment or a string
// reaches the blank and goes on through it.

proof fn lemma_digits_before(s: Seq<char>, k: int, b: char, i: int)
    requires
        0 <= i <= k <= s.len(),
        is_blank(b),
        digits_end(s, i) <= k,
    ensures
        digits_end(with_blank(s, k, b), i) == digits_end(s, i),
    decreases k - i,
{
    lemma_with_blank_at(s, k, b);
    lemma_digits_end(s, i);
    if i < k {
        assert(with_blank(s, k, b)[i] == s[i]);
        if is_digit(s[i]) {
            lemma_digits_before(s, k, b, i + 1);
        }
    }
}

proof fn lemma_word_before(s: Seq<char>, k: int, b: char, i: int)
    requires
        0 <= i <= k <= s.len(),
        is_blank(b),
        word_end(s, i) <= k,
    ensures
        word_end(with_blank(s, k, b), i) == word_end(s, i),
    decreases k - i,
{
    lemma_with_blank_at(s, k, b);
    lemma_word_end(s, i);
    if i < k {
        assert(with_blank(s, k, b)[i] == s[i]);
        if is_word_char(s[i]) {
            lemma_word_before(s, k, b, i + 1);
        }
    }
}

proof fn lemma_line_before(s: Seq<char>, k: int, b: char, i: int)
    requires
        0 <= i <= k <= s.len(),
        is_blank(b),
        line_end(s, i) <= k,
    ensures
        line_end(with_blank(s, k, b), i) == if line_end(s, i) == k && b != '\n' {
            k + 1
        } else {
            line_end(s, i)
        },
    decreases k - i,
{
    lemma_with_blank_at(s, k, b);
    lemma_line_end(s, i);
    if i < k {
        assert(with_blank(s, k, b)[i] == s[i]);
        if s[i] != '\n' {
            lemma_line_before(s, k, b, i + 1);
        }
    } else if b != '\n' {
        lemma_line_shift(s, k, b, k);
    }
}

proof fn lemma_quote_before(s: Seq<char>, k: int, b: char, i: int)
    requires
        0 <= i <= k <= s.len(),
        is_blank(b),
        quote_end(s, i) <= k,
    ensures
        quote_end(with_blank(s, k, b), i) == if quote_end(s, i) == k {
            k + 1
        } else {
            quote_end(s, i)
        },
    decreases k - i,
{
    lemma_with_blank_at(s, k, b);
    lemma_quote_end(s, i);
    if i < k {
        assert(with_blank(s, k, b)[i] == s[i]);
        if s[i] != '"' {
            lemma_quote_before(s, k, b, i + 1);
        }
    } else {
        lemma_quote_shift(s, k, b, k);
    }
}

/// After the blank, a step reads what it read at the place one before.
proof fn lemma_shifted_step(s: Seq<char>, k: int, b: char, j: int)
    requires
        0 <= k <= j < s.len(),
        is_blank(b),
    ensures
        lex_step(with_blank(s, k, b), j + 1).next == lex_step(s, j).next + 1,
        lex_step(with_blank(s, k, b), j + 1).kind == lex_step(s, j).kind,
        lex_step(with_blank(s, k, b), j + 1).error == lex_step(s, j).error,
{
    let s2 = with_blank(s, k, b);
    lemma_with_blank_at(s, k, b);
    let c = s[j];
    assert(s2[j + 1] == c);
    assert(peek_at(s2, j + 2) == peek_at(s, j + 1));
    if single_char_token(c) is Some {
    } else if c == '/' {
        lemma_line_shift(s, k, b, j + 2);
    } else if comparison_token(c, false) is Some {
    } else if c == ' ' || c == '\r' || c == '\t' || c == '\n' {
    } else if c == '"' {
        lemma_quote_shift(s, k, b, j + 1);
    } else if is_digit(c) {
        lemma_digits_shift(s, k, b, j + 1);
        let d = digits_end(s, j + 1);
        lemma_digits_end(s, j + 1);
        lemma_digits_shift(s, k, b, d + 1);
        assert(peek_at(s2, d + 1) == peek_at(s, d));
        assert(peek_at(s2, d + 2) == peek_at(s, d + 1));
    } else if is_letter(c) || c == '_' {
        lemma_word_shift(s, k, b, j + 1);
        let e = word_end(s, j + 1);
        lemma_word_end(s, j + 1);
        assert(s2.subrange(j + 1, e + 1) =~= s.subrange(j, e));
    }
}

/// After the blank, scanning reads what it read at the place one before.
proof fn lemma_shifted_scan(s: Seq<char>, k: int, b: char, j: int)
    requires
        0 <= k <= j <= s.len(),
        is_blank(b),
    ensures
        alike(scan_from(with_blank(s, k, b), j + 1), scan_from(s, j)),
    decreases s.len() - j,
{
    let s2 = with_blank(s, k, b);
    lemma_with_blank_at(s, k, b);
    if j < s.len() {
        let st = lex_step(s, j);
        lemma_lex_step_advances(s, j);
        lemma_shifted_step(s, k, b, j);
        let n = st.next;
        lemma_shifted_scan(s, k, b, n);
        let rest = scan_from(s, n).tokens;
        let rest2 = scan_from(s2, n + 1).tokens;
        match st.kind {
            Some(kind) => {
                assert(s2.subrange(j + 1, n + 1) =~= s.subrange(j, n));
                if kind == TokenType::String {
                    lemma_quote_end(s, j + 1);
                    assert(s2.subrange(j + 2, n) =~= s.subrange(j + 1, n - 1));
                }
                lemma_shapes_cons(crate::scanner::lexed_token(s, j, n, kind), rest);
                lemma_shapes_cons(crate::scanner::lexed_token(s2, j + 1, n + 1, kind), rest2);
            },
            None => {},
        }
    }
}

/// A place that the scan from `p` reaches lies at or after `p`; past `p` it is reached from
/// the end of the step at `p`.
proof fn lemma_reaches_step(s: Seq<char>, p: int, k: int)
    requires
        scan_reaches(s, p, k),
        p != k,
    ensures
        0 <= p < s.len(),
        scan_reaches(s, lex_step(s, p).next, k),
        lex_step(s, p).next <= k,
{
    lemma_lex_step_advances(s, p);
    let n = lex_step(s, p).next;
    assert(scan_reaches(s, n, k));
    if n != k {
        assert(!(k < n));
    }
}

/// Before the blank, at a place the scan reaches, scanning reads what it read without it.
proof fn lemma_scan_before(s: Seq<char>, k: int, b: char, p: int)
    requires
        0 <= p <= k <= s.len(),
        is_blank(b),
        scan_reaches(s, p, k),
    ensures
        alike(scan_from(with_blank(s, k, b), p), scan_from(s, p)),
    decreases k - p,
{
    let s2 = with_blank(s, k, b);
    lemma_with_blank_at(s, k, b);
    if p == k {
        lemma_white_space_unseen(s2, k);
        lemma_shifted_scan(s, k, b, k);
    } else {
        let st = lex_step(s, p);
        let st2 = lex_step(s2, p);
        lemma_reaches_step(s, p, k);
        lemma_lex_step_advances(s, p);
        let n = st.next;
        lemma_step_before(s, k, b, p);
        if st2.next == n {
            lemma_scan_before(s, k, b, n);
        } else {
            lemma_shifted_scan(s, k, b, k);
        }
        let rest = scan_from(s, n).tokens;
        let rest2 = scan_from(s2, st2.next).tokens;
        match st.kind {
            Some(kind) => {
                assert(s2.subrange(p, n) =~= s.subrange(p, n));
                if kind == TokenType::String {
                    lemma_quote_end(s, p + 1);
                    assert(s2.subrange(p + 1, n - 1) =~= s.subrange(p + 1, n - 1));
                }
                lemma_shapes_cons(crate::scanner::lexed_token(s, p, n, kind), rest);
                lemma_shapes_cons(crate::scanner::lexed_token(s2, p, n, kind), rest2);
            },
            None => {},
        }
    }
}

/// Before the blank, a step that ends no later than the blank reads what it read without it;
/// only a comment or an unclosed string that runs up to the blank runs on through it.
proof fn lemma_step_before(s: Seq<char>, k: int, b: char, p: int)
    requires
        0 <= p < k <= s.len(),
        is_blank(b),
        lex_step(s, p).next <= k,
    ensures
        lex_step(with_blank(s, k, b), p).kind == lex_step(s, p).kind,
        lex_step(with_blank(s, k, b), p).error == lex_step(s, p).error,
        lex_step(with_blank(s, k, b), p).next == lex_step(s, p).next || (lex_step(s, p).next == k
            && lex_step(with_blank(s, k, b), p).next == k + 1 && lex_step(s, p).kind is None),
{
    let s2 = with_blank(s, k, b);
    lemma_with_blank_at(s, k, b);
    lemma_lex_step_advances(s, p);
    let n = lex_step(s, p).next;
    let c = s[p];
    assert(s2[p] == c);
    if single_char_token(c) is Some {
    } else if c == '/' {
        if p + 1 < k {
            assert(s2[p + 1] == s[p + 1]);
        }
        if peek_at(s, p + 1) == '/' {
            lemma_line_end(s, p + 2);
            lemma_line_before(s, k, b, p + 2);
        }
    } else if comparison_token(c, false) is Some {
        if p + 1 < k {
            assert(s2[p + 1] == s[p + 1]);
        }
    } else if c == ' ' || c == '\r' || c == '\t' || c == '\n' {
    } else if c == '"' {
        lemma_quote_end(s, p + 1);
        lemma_quote_before(s, k, b, p + 1);
    } else if is_digit(c) {
        let d = digits_end(s, p + 1);
        lemma_digits_end(s, p + 1);
        lemma_digits_end(s, d + 1);
        lemma_digits_before(s, k, b, p + 1);
        if peek_at(s, d) == '.' && is_digit(peek_at(s, d + 1)) {
            lemma_digits_end(s, d + 2);
            assert(s2[d] == s[d]);
            assert(s2[d + 1] == s[d + 1]);
            lemma_digits_before(s, k, b, d + 1);
        } else if d < k {
            assert(s2[d] == s[d]);
            if d + 1 < k {
                assert(s2[d + 1] == s[d + 1]);
            }
        }
    } else if is_letter(c) || c == '_' {
        let e = word_end(s, p + 1);
        lemma_word_end(s, p + 1);
        lemma_word_before(s, k, b, p + 1);
        assert(s2.subrange(p, e) =~= s.subrange(p, e));
    }
}

/// Oil does not see white space between tokens: putting a blank (space, tab, carriage return
/// or newline) into a source where its scan passes from one token to the next, or before the
/// first or after the last, leaves the tokens read as they were, but for their lines, and
/// leaves as many errors.
pub proof fn lemma_blank_between_tokens(s: Seq<char>, k: int, b: char)
    requires
        0 <= k <= s.len(),
        is_blank(b),
        scan_reaches(s, 0, k),
    ensures
        token_shapes(source_tokens(with_blank(s, k, b))) == token_shapes(source_tokens(s)),
        source_errors(with_blank(s, k, b)).len() == source_errors(s).len(),
{
    let s2 = with_blank(s, k, b);
    lemma_scan_before(s, k, b, 0);
    let a = scan_from(s2, 0).tokens;
    let t = scan_from(s, 0).tokens;
    assert(token_shapes(a.push(crate::scanner::eof_token(s2))) =~= token_shapes(a).push(
        token_shape(crate::scanner::eof_token(s2)),
    ));
    assert(token_shapes(t.push(crate::scanner::eof_token(s))) =~= token_shapes(t).push(
        token_shape(crate::scanner::eof_token(s)),
    ));
}

} // verus!

verus! {

/// A place reached by the scan after the blank stays reached, one further on.
proof fn lemma_reaches_shift(s: Seq<char>, k: int, b: char, q: int, j: int)
    requires
        0 <= k <= q <= s.len(),
        is_blank(b),
        scan_reaches(s, q, j),
    ensures
        scan_reaches(with_blank(s, k, b), q + 1, j + 1),
    decreases s.len() - q,
{
    if q != j {
        lemma_reaches_step(s, q, j);
        lemma_lex_step_advances(s, q);
        lemma_shifted_step(s, k, b, q);
        let n = lex_step(s, q).next;
        lemma_reaches_shift(s, k, b, n, j);
        lemma_with_blank_at(s, k, b);
        assert(scan_reaches(with_blank(s, k, b), q + 1, j + 1));
    }
}

/// The places that the scan from `p` reaches stay reached when a blank is put in at one of
/// them, `k`: those before `k` where they were, the others one further on.
proof fn lemma_reaches_kept(s: Seq<char>, k: int, b: char, p: int, j: int)
    requires
        0 <= p <= k <= s.len(),
        is_blank(b),
        scan_reaches(s, p, k),
        scan_reaches(s, p, j),
    ensures
        scan_reaches(with_blank(s, k, b), p, if j < k { j } else { j + 1 }),
    decreases k - p,
{
    let s2 = with_blank(s, k, b);
    lemma_with_blank_at(s, k, b);
    if p == k {
        if j != k {
            lemma_reaches_step(s, k, j);
        }
        lemma_reaches_shift(s, k, b, k, j);
        lemma_lex_step_advances(s2, k);
        assert(lex_step(s2, k).next == k + 1);
        assert(scan_reaches(s2, k, j + 1));
    } else if j != p {
        lemma_reaches_step(s, p, k);
        lemma_reaches_step(s, p, j);
        lemma_lex_step_advances(s, p);
        lemma_lex_step_advances(s2, p);
        lemma_step_before(s, k, b, p);
        let n = lex_step(s, p).next;
        let j2 = if j < k { j } else { j + 1 };
        if lex_step(s2, p).next == n {
            lemma_reaches_kept(s, k, b, n, j);
        } else {
            if j != k {
                lemma_reaches_step(s, k, j);
            }
            lemma_reaches_shift(s, k, b, k, j);
        }
        assert(scan_reaches(s2, p, j2));
    }
}

/// `s` with blanks put in: `bs[i]` at the place `ks[i]` of `s`, the places in order.
pub open spec fn with_blanks(s: Seq<char>, ks: Seq<int>, bs: Seq<char>) -> Seq<char>
    decreases ks.len(),
{
    if ks.len() == 0 || bs.len() == 0 {
        s
    } else {
        with_blanks(
            with_blank(s, ks[0], bs[0]),
            ks.drop_first().map_values(|i: int| i + 1),
            bs.drop_first(),
        )
    }
}

/// Oil does not see white space between tokens: putting any number of blanks into a source,
/// each where its scan passes from one token to the next (or before the first or after the
/// last), leaves the tokens read as they were, but for their lines, and leaves as many errors.
pub proof fn lemma_blanks_between_tokens(s: Seq<char>, ks: Seq<int>, bs: Seq<char>)
    requires
        ks.len() == bs.len(),
        forall|i: int| 0 <= i < bs.len() ==> is_blank(#[trigger] bs[i]),
        forall|i: int| 0 <= i < ks.len() ==> 0 <= #[trigger] ks[i] <= s.len(),
        forall|i: int| 0 <= i < ks.len() ==> scan_reaches(s, 0, #[trigger] ks[i]),
        forall|i: int, j: int| 0 <= i < j < ks.len() ==> #[trigger] ks[i] <= #[trigger] ks[j],
    ensures
        token_shapes(source_tokens(with_blanks(s, ks, bs))) == token_shapes(source_tokens(s)),
        source_errors(with_blanks(s, ks, bs)).len() == source_errors(s).len(),
    decreases ks.len(),
{
    if ks.len() > 0 {
        let k = ks[0];
        let b = bs[0];
        let s2 = with_blank(s, k, b);
        lemma_blank_between_tokens(s, k, b);
        let ks2 = ks.drop_first().map_values(|i: int| i + 1);
        let bs2 = bs.drop_first();
        assert forall|i: int| 0 <= i < ks2.len() implies scan_reaches(s2, 0, #[trigger] ks2[i]) by {
            assert(ks[i + 1] >= k);
            lemma_reaches_kept(s, k, b, 0, ks[i + 1]);
        }
        assert forall|i: int| 0 <= i < bs2.len() implies is_blank(#[trigger] bs2[i]) by {
            assert(bs2[i] == bs[i + 1]);
        }
        assert forall|i: int| 0 <= i < ks2.len() implies 0 <= #[trigger] ks2[i] <= s2.len() by {
            assert(ks2[i] == ks[i + 1] + 1);
        }
        assert forall|i: int, j: int| 0 <= i < j < ks2.len() implies #[trigger] ks2[i]
            <= #[trigger] ks2[j] by {
            assert(ks2[i] == ks[i + 1] + 1);
            assert(ks2[j] == ks[j + 1] + 1);
        }
        lemma_blanks_between_tokens(s2, ks2, bs2);
    }
}

} // verus!
