use vstd::prelude::*;

verus! {

/// The sign bit of an IEEE-754 double.
pub const SIGN_BIT: u64 = 0x8000_0000_0000_0000;

/// The bit pattern of positive infinity; every larger magnitude is a NaN.
pub const INFINITY_BITS: u64 = 0x7ff0_0000_0000_0000;

/// A runtime value of Oil.
///
/// A number is held as the bit pattern of the IEEE-754 double it stands for.
#[derive(Debug)]
pub enum Object {
    Str(String),
    Num(u64),
    Bool(bool),
    Null,
}

/// The mathematical model of an [`Object`]: strings are taken by their characters.
pub enum ObjectV {
    Str(Seq<char>),
    Num(u64),
    Bool(bool),
    Null,
}

impl View for Object {
    type V = ObjectV;

    open spec fn view(&self) -> ObjectV {
        match self {
            Object::Str(s) => ObjectV::Str(s@),
            Object::Num(n) => ObjectV::Num(*n),
            Object::Bool(b) => ObjectV::Bool(*b),
            Object::Null => ObjectV::Null,
        }
    }
}

impl Clone for Object {
    fn clone(&self) -> (r: Self)
        ensures
            r == *self,
    {
        match self {
            Object::Str(s) => Object::Str(s.clone()),
            Object::Num(n) => Object::Num(*n),
            Object::Bool(b) => Object::Bool(*b),
            Object::Null => Object::Null,
        }
    }
}

/// The magnitude of a double: its bits without the sign bit.
pub open spec fn magnitude(bits: u64) -> int {
    (bits % 0x8000_0000_0000_0000) as int
}

/// Whether the sign bit of a double is set.
pub open spec fn is_negative_bits(bits: u64) -> bool {
    bits >= SIGN_BIT
}

/// Whether a double is a NaN: all exponent bits set and a nonzero fraction.
pub open spec fn is_nan(bits: u64) -> bool {
    magnitude(bits) > INFINITY_BITS
}

/// The place of a double that is not a NaN on the number line.
/// The encoding of doubles orders magnitudes as their bit patterns do, and both zeros sit at 0.
pub open spec fn order_key(bits: u64) -> int {
    if is_negative_bits(bits) {
        -magnitude(bits)
    } else {
        magnitude(bits)
    }
}

/// IEEE-754 equality: no NaN equals anything, and the two zeros are equal.
pub open spec fn float_eq(a: u64, b: u64) -> bool {
    !is_nan(a) && !is_nan(b) && order_key(a) == order_key(b)
}

/// IEEE-754 `<`: false whenever a NaN takes part.
pub open spec fn float_lt(a: u64, b: u64) -> bool {
    !is_nan(a) && !is_nan(b) && order_key(a) < order_key(b)
}

/// IEEE-754 `<=`: false whenever a NaN takes part.
pub open spec fn float_le(a: u64, b: u64) -> bool {
    !is_nan(a) && !is_nan(b) && order_key(a) <= order_key(b)
}

/// IEEE-754 negation: the sign bit flips, nothing else changes.
pub open spec fn float_neg(bits: u64) -> u64 {
    if is_negative_bits(bits) {
        (bits - SIGN_BIT) as u64
    } else {
        (bits + SIGN_BIT) as u64
    }
}

/// Whether two values are equal in Oil: only values of one kind can be equal,
/// numbers compare as doubles and strings by their characters.
pub open spec fn objects_equal(left: ObjectV, right: ObjectV) -> bool {
    match (left, right) {
        (ObjectV::Null, ObjectV::Null) => true,
        (ObjectV::Bool(a), ObjectV::Bool(b)) => a == b,
        (ObjectV::Num(a), ObjectV::Num(b)) => float_eq(a, b),
        (ObjectV::Str(a), ObjectV::Str(b)) => a == b,
        _ => false,
    }
}

/// The truthiness of a value: `null` and `false` are false, everything else is true.
pub open spec fn truthy(value: ObjectV) -> bool {
    match value {
        ObjectV::Null => false,
        ObjectV::Bool(b) => b,
        _ => true,
    }
}

/// Whether a character is white space in the sense of Unicode's `White_Space` property.
pub open spec fn is_white_space(c: char) -> bool {
    ('\u{9}' <= c && c <= '\u{d}') || c == ' ' || c == '\u{85}' || c == '\u{a0}'
        || c == '\u{1680}' || ('\u{2000}' <= c && c <= '\u{200a}') || c == '\u{2028}'
        || c == '\u{2029}' || c == '\u{202f}' || c == '\u{205f}' || c == '\u{3000}'
}

/// The number of white-space characters at the front of `s`.
pub open spec fn leading_space(s: Seq<char>) -> int
    decreases s.len(),
{
    if s.len() > 0 && is_white_space(s[0]) {
        1 + leading_space(s.drop_first())
    } else {
        0
    }
}

/// The number of white-space characters at the back of `s`.
pub open spec fn trailing_space(s: Seq<char>) -> int
    decreases s.len(),
{
    if s.len() > 0 && is_white_space(s.last()) {
        1 + trailing_space(s.drop_last())
    } else {
        0
    }
}

/// `s` without white space at either end.
pub open spec fn trimmed(s: Seq<char>) -> Seq<char> {
    let front = leading_space(s);
    let rest = s.subrange(front, s.len() as int);
    rest.subrange(0, rest.len() - trailing_space(rest))
}

/// What `Object::parse` gives for input whose trimmed text is `t`, where `number` is what
/// reading `t` as a double gave.
pub open spec fn parsed_object(t: Seq<char>, number: Option<u64>) -> ObjectV {
    if t == seq!['n', 'u', 'l', 'l'] || t == seq!['N', 'U', 'L', 'L'] {
        ObjectV::Null
    } else if number is Some {
        ObjectV::Num(number->0)
    } else if t == seq!['t', 'r', 'u', 'e'] {
        ObjectV::Bool(true)
    } else if t == seq!['f', 'a', 'l', 's', 'e'] {
        ObjectV::Bool(false)
    } else {
        ObjectV::Str(t)
    }
}

pub proof fn lemma_leading_space_bound(s: Seq<char>)
    ensures
        0 <= leading_space(s) <= s.len(),
        forall|i: int| 0 <= i < leading_space(s) ==> is_white_space(#[trigger] s[i]),
        leading_space(s) < s.len() ==> !is_white_space(s[leading_space(s)]),
    decreases s.len(),
{
    if s.len() > 0 && is_white_space(s[0]) {
        lemma_leading_space_bound(s.drop_first());
        assert forall|i: int| 0 <= i < leading_space(s) implies is_white_space(#[trigger] s[i]) by {
            if i > 0 {
                assert(s[i] == s.drop_first()[i - 1]);
            }
        }
    }
}

pub proof fn lemma_trailing_space_bound(s: Seq<char>)
    ensures
        0 <= trailing_space(s) <= s.len(),
        forall|i: int|
            s.len() - trailing_space(s) <= i < s.len() ==> is_white_space(#[trigger] s[i]),
        trailing_space(s) < s.len() ==> !is_white_space(s[s.len() - 1 - trailing_space(s)]),
    decreases s.len(),
{
    if s.len() > 0 && is_white_space(s.last()) {
        lemma_trailing_space_bound(s.drop_last());
        assert forall|i: int|
            s.len() - trailing_space(s) <= i < s.len() implies is_white_space(#[trigger] s[i]) by {
            if i < s.len() - 1 {
                assert(s[i] == s.drop_last()[i]);
            }
        }
    }
}

/// Whether `c` is white space.
pub fn char_is_white_space(c: char) -> (r: bool)
    ensures
        r == is_white_space(c),
{
    ('\u{9}' <= c && c <= '\u{d}') || c == ' ' || c == '\u{85}' || c == '\u{a0}' || c
        == '\u{1680}' || ('\u{2000}' <= c && c <= '\u{200a}') || c == '\u{2028}' || c
        == '\u{2029}' || c == '\u{202f}' || c == '\u{205f}' || c == '\u{3000}'
}

/// `s` without white space at either end.
pub fn trim(s: &str) -> (r: String)
    ensures
        r@ == trimmed(s@),
{
    let n = s.unicode_len();
    let mut front: usize = 0;
    while front < n && char_is_white_space(s.get_char(front))
        invariant
            n == s@.len(),
            front <= n,
            forall|i: int| 0 <= i < front ==> is_white_space(#[trigger] s@[i]),
        decreases n - front,
    {
        front += 1;
    }
    proof {
        lemma_leading_space_bound(s@);
        lemma_leading_space_exact(s@, front as int);
    }
    let mut back: usize = n;
    while back > front && char_is_white_space(s.get_char(back - 1))
        invariant
            n == s@.len(),
            front <= back <= n,
            forall|i: int| back <= i < n ==> is_white_space(#[trigger] s@[i]),
        decreases back,
    {
        back -= 1;
    }
    let ghost rest = s@.subrange(front as int, n as int);
    proof {
        assert forall|i: int| rest.len() - (n - back) <= i < rest.len() implies is_white_space(
            #[trigger] rest[i],
        ) by {
            assert(rest[i] == s@[front + i]);
        }
        if back > front {
            assert(rest[back - front - 1] == s@[back - 1]);
        }
        lemma_trailing_space_exact(rest, (n - back) as int);
    }
    let piece = s.substring_char(front, back);
    assert(piece@ == rest.subrange(0, rest.len() - trailing_space(rest)));
    String::from_str(piece)
}

proof fn lemma_leading_space_exact(s: Seq<char>, k: int)
    requires
        0 <= k <= s.len(),
        forall|i: int| 0 <= i < k ==> is_white_space(#[trigger] s[i]),
        k < s.len() ==> !is_white_space(s[k]),
    ensures
        leading_space(s) == k,
    decreases s.len(),
{
    if k > 0 {
        assert(is_white_space(s[0]));
        assert forall|i: int| 0 <= i < k - 1 implies is_white_space(#[trigger] s.drop_first()[i]) by {
            assert(s.drop_first()[i] == s[i + 1]);
        }
        if k < s.len() {
            assert(s.drop_first()[k - 1] == s[k]);
        }
        lemma_leading_space_exact(s.drop_first(), k - 1);
    }
}

proof fn lemma_trailing_space_exact(s: Seq<char>, k: int)
    requires
        0 <= k <= s.len(),
        forall|i: int| s.len() - k <= i < s.len() ==> is_white_space(#[trigger] s[i]),
        k < s.len() ==> !is_white_space(s[s.len() - 1 - k]),
    ensures
        trailing_space(s) == k,
    decreases s.len(),
{
    if k > 0 {
        assert(is_white_space(s[s.len() - 1]));
        let d = s.drop_last();
        assert forall|i: int| d.len() - (k - 1) <= i < d.len() implies is_white_space(
            #[trigger] d[i],
        ) by {
            assert(d[i] == s[i]);
        }
        if k < s.len() {
            assert(d[d.len() - 1 - (k - 1)] == s[s.len() - 1 - k]);
        }
        lemma_trailing_space_exact(d, k - 1);
    }
}

/// Whether the double `bits` is a NaN.
pub fn bits_are_nan(bits: u64) -> (r: bool)
    ensures
        r == is_nan(bits),
{
    bits % 0x8000_0000_0000_0000 > INFINITY_BITS
}

/// IEEE-754 equality of two doubles, given by their bits.
pub fn doubles_equal(a: u64, b: u64) -> (r: bool)
    ensures
        r == float_eq(a, b),
{
    if bits_are_nan(a) || bits_are_nan(b) {
        return false;
    }
    let ma = a % 0x8000_0000_0000_0000;
    let mb = b % 0x8000_0000_0000_0000;
    if a >= SIGN_BIT && b >= SIGN_BIT {
        ma == mb
    } else if a < SIGN_BIT && b < SIGN_BIT {
        ma == mb
    } else {
        ma == 0 && mb == 0
    }
}

/// IEEE-754 `<` of two doubles, given by their bits.
pub fn double_less(a: u64, b: u64) -> (r: bool)
    ensures
        r == float_lt(a, b),
{
    if bits_are_nan(a) || bits_are_nan(b) {
        return false;
    }
    let ma = a % 0x8000_0000_0000_0000;
    let mb = b % 0x8000_0000_0000_0000;
    if a >= SIGN_BIT && b >= SIGN_BIT {
        mb < ma
    } else if a < SIGN_BIT && b < SIGN_BIT {
        ma < mb
    } else if a >= SIGN_BIT {
        ma != 0 || mb != 0
    } else {
        false
    }
}

/// IEEE-754 `<=` of two doubles, given by their bits.
pub fn double_less_equal(a: u64, b: u64) -> (r: bool)
    ensures
        r == float_le(a, b),
{
    double_less(a, b) || doubles_equal(a, b)
}

/// IEEE-754 negation of a double, given by its bits.
pub fn double_negate(bits: u64) -> (r: u64)
    ensures
        r == float_neg(bits),
{
    if bits >= SIGN_BIT {
        bits - SIGN_BIT
    } else {
        bits + SIGN_BIT
    }
}

impl Object {
    /// Equality of Oil values.
    pub fn is_equal(&self, right: &Object) -> (r: bool)
        ensures
            r == objects_equal(self@, right@),
    {
        match (self, right) {
            (Object::Null, Object::Null) => true,
            (Object::Bool(b1), Object::Bool(b2)) => *b1 == *b2,
            (Object::Num(n1), Object::Num(n2)) => doubles_equal(*n1, *n2),
            (Object::Str(s1), Object::Str(s2)) => *s1 == *s2,
            _ => false,
        }
    }

    /// Truthiness: `null` and `false` are false, any string, number and `true` are true.
    pub fn is_truthy(&self) -> (r: bool)
        ensures
            r == truthy(self@),
            r == match self@ {
                ObjectV::Null => false,
                ObjectV::Bool(b) => b,
                ObjectV::Str(_) => true,
                ObjectV::Num(_) => true,
            },
    {
        match self {
            Object::Null => false,
            Object::Bool(b) => *b,
            _ => true,
        }
    }

    /// Reads a value typed by a user.
    ///
    /// `number` is what reading the trimmed input as a double gave: the bits of the double,
    /// or `None` where the text is no number.
    pub fn parse(input: &str, number: Option<u64>) -> (r: Object)
        ensures
            r@ == parsed_object(trimmed(input@), number),
    {
        let t = trim(input);
        let word = t.as_str();
        proof {
            reveal_strlit("null");
            reveal_strlit("NULL");
            reveal_strlit("true");
            reveal_strlit("false");
            assert("null"@ =~= seq!['n', 'u', 'l', 'l']);
            assert("NULL"@ =~= seq!['N', 'U', 'L', 'L']);
            assert("true"@ =~= seq!['t', 'r', 'u', 'e']);
            assert("false"@ =~= seq!['f', 'a', 'l', 's', 'e']);
        }
        if word_is(word, "null") || word_is(word, "NULL") {
            Object::Null
        } else if let Some(bits) = number {
            Object::Num(bits)
        } else if word_is(word, "true") {
            Object::Bool(true)
        } else if word_is(word, "false") {
            Object::Bool(false)
        } else {
            Object::Str(t)
        }
    }
}

/// Whether two strings hold the same characters.
pub fn word_is(s: &str, word: &str) -> (r: bool)
    ensures
        r == (s@ == word@),
{
    let n = s.unicode_len();
    let m = word.unicode_len();
    if n != m {
        return false;
    }
    let mut i: usize = 0;
    while i < n
        invariant
            n == s@.len(),
            m == word@.len(),
            n == m,
            i <= n,
            forall|j: int| 0 <= j < i ==> s@[j] == word@[j],
        decreases n - i,
    {
        if s.get_char(i) != word.get_char(i) {
            return false;
        }
        i += 1;
    }
    assert(s@ =~= word@);
    true
}

} // verus!

verus! {

/// Equality of values is symmetric.
pub proof fn lemma_equality_symmetric(a: ObjectV, b: ObjectV)
    ensures
        objects_equal(a, b) == objects_equal(b, a),
{
}

/// Every value equals itself, but for a number that is a NaN.
pub proof fn lemma_equality_reflexive(a: ObjectV)
    ensures
        objects_equal(a, a) <==> !(a matches ObjectV::Num(n) && is_nan(n)),
{
}

/// Negating a number twice gives it back.
pub proof fn lemma_double_negation(bits: u64)
    ensures
        float_neg(float_neg(bits)) == bits,
        is_nan(float_neg(bits)) == is_nan(bits),
        !is_nan(bits) ==> order_key(float_neg(bits)) == -order_key(bits),
{
}

} // verus!

verus! {

/// Two strings are equal values exactly when they are of one length and hold the same
/// character at every place; strings of different lengths are never equal.
pub proof fn lemma_strings_equal_exactly(a: Seq<char>, b: Seq<char>)
    ensures
        objects_equal(ObjectV::Str(a), ObjectV::Str(b)) <==> (a.len() == b.len() && forall|i: int|
            0 <= i < a.len() ==> a[i] == b[i]),
        a.len() != b.len() ==> !objects_equal(ObjectV::Str(a), ObjectV::Str(b)),
{
    if a.len() == b.len() && forall|i: int| 0 <= i < a.len() ==> a[i] == b[i] {
        assert(a =~= b);
    }
}

/// The white space that trimming removes is exactly Unicode's `White_Space`: the controls
/// U+0009 to U+000D (tab, line feed, vertical tab, form feed, carriage return), U+0020,
/// U+0085, U+00A0, U+1680, U+2000 to U+200A, U+2028, U+2029, U+202F, U+205F and U+3000.
pub proof fn lemma_white_space_is_unicode_white_space(c: char)
    ensures
        is_white_space(c) <==> {
            ||| c == '\t'
            ||| c == '\n'
            ||| c == '\u{b}'
            ||| c == '\u{c}'
            ||| c == '\r'
            ||| c == ' '
            ||| c == '\u{85}'
            ||| c == '\u{a0}'
            ||| c == '\u{1680}'
            ||| ('\u{2000}' <= c && c <= '\u{200a}')
            ||| c == '\u{2028}'
            ||| c == '\u{2029}'
            ||| c == '\u{202f}'
            ||| c == '\u{205f}'
            ||| c == '\u{3000}'
        },
{
}

/// Trimming does not see white space added at the end: `s` followed by white space trims as
/// `s` does; in particular a line read with its `\r\n` ending trims as the line without it.
pub proof fn lemma_trim_ignores_trailing_white_space(s: Seq<char>, w: Seq<char>)
    requires
        forall|i: int| 0 <= i < w.len() ==> is_white_space(#[trigger] w[i]),
    ensures
        trimmed(s + w) == trimmed(s),
        trimmed(s + seq!['\r', '\n']) == trimmed(s),
{
    lemma_trim_append_white(s, w);
    let crlf = seq!['\r', '\n'];
    assert forall|i: int| 0 <= i < crlf.len() implies is_white_space(#[trigger] crlf[i]) by {
    }
    lemma_trim_append_white(s, crlf);
}

proof fn lemma_trim_append_white(s: Seq<char>, w: Seq<char>)
    requires
        forall|i: int| 0 <= i < w.len() ==> is_white_space(#[trigger] w[i]),
    ensures
        trimmed(s + w) == trimmed(s),
{
    let t = s + w;
    lemma_leading_space_bound(s);
    let k = leading_space(s);
    if k < s.len() {
        assert forall|i: int| 0 <= i < k implies is_white_space(#[trigger] t[i]) by {
            assert(t[i] == s[i]);
        }
        assert(t[k] == s[k]);
        lemma_leading_space_exact(t, k);
        let rest = s.subrange(k, s.len() as int);
        let rest_t = t.subrange(k, t.len() as int);
        assert(rest_t =~= rest + w);
        lemma_trailing_space_bound(rest);
        let m = trailing_space(rest);
        assert(!is_white_space(rest[0]));
        assert(m < rest.len());
        assert forall|i: int|
            rest_t.len() - (m + w.len()) <= i < rest_t.len() implies is_white_space(
            #[trigger] rest_t[i],
        ) by {
            if i < rest.len() {
                assert(rest_t[i] == rest[i]);
            } else {
                assert(rest_t[i] == w[i - rest.len()]);
            }
        }
        assert(rest_t[rest_t.len() - 1 - (m + w.len())] == rest[rest.len() - 1 - m]);
        lemma_trailing_space_exact(rest_t, m + w.len());
        assert(rest_t.subrange(0, rest_t.len() - (m + w.len())) =~= rest.subrange(
            0,
            rest.len() - m,
        ));
    } else {
        assert forall|i: int| 0 <= i < t.len() implies is_white_space(#[trigger] t[i]) by {
            if i < s.len() {
                assert(t[i] == s[i]);
            } else {
                assert(t[i] == w[i - s.len()]);
            }
        }
        lemma_leading_space_exact(t, t.len() as int);
        lemma_trailing_space_exact(Seq::<char>::empty(), 0);
        assert(t.subrange(t.len() as int, t.len() as int) =~= Seq::<char>::empty());
        assert(s.subrange(s.len() as int, s.len() as int) =~= Seq::<char>::empty());
    }
}

} // verus!
