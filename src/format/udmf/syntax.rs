//! The grammar of the map-definition language, as functions of the text and a position.
//!
//! Each `*_at(s, i)` function says what reading from position `i` of the text `s` gives:
//! the thing read and the position right after it, or the error that reading reports.

use super::{DecimalView, ValueView, digits_value};
use vstd::prelude::*;

verus! {

/// A token as a mathematical value.
pub enum TokenView {
    Ident(Seq<char>),
    Assignment,
    Seperator,
    StartBlock,
    EndBlock,
}

/// An error as a mathematical value.
pub enum ErrorKindView {
    UnexpectedChar(char),
    UnquotedString,
    InvalidKeyword(Seq<char>),
    InvalidType { expected: super::Shape, found: super::Shape },
    ExpectedIdent,
    ExpectedSeperator,
    ExpectedAssignment,
    UnexpectedToken,
    MissingField(Seq<char>),
    DuplicateField(Seq<char>),
    Eof,
}

/// The largest 32-bit signed integer.
pub open spec fn i32_max() -> nat {
    2147483647
}

/// The largest magnitude that a run of digits may write after the given sign and still fit
/// in 32 bits: one more below zero than above.
pub open spec fn magnitude_limit(negative: bool) -> nat {
    if negative {
        i32_max() + 1
    } else {
        i32_max()
    }
}

/// ASCII whitespace: space, tab, line feed, form feed, carriage return.
pub open spec fn is_space(c: char) -> bool {
    c == ' ' || c == '\t' || c == '\n' || c == '\x0C' || c == '\r'
}

pub open spec fn is_digit(c: char) -> bool {
    '0' <= c <= '9'
}

/// A character that can start an identifier.
pub open spec fn is_ident_start(c: char) -> bool {
    ('A' <= c <= 'Z') || ('a' <= c <= 'z') || c == '_'
}

/// A character that can continue an identifier.
pub open spec fn is_ident_char(c: char) -> bool {
    is_ident_start(c) || is_digit(c)
}

/// A character that ends a bare keyword: a structural symbol, a quote or whitespace.
pub open spec fn ends_keyword(c: char) -> bool {
    is_space(c) || c == '=' || c == ';' || c == '{' || c == '}' || c == '"'
}

/// Kinds of runs of characters that the tokenizer scans over.
#[derive(Clone, Copy, Debug, PartialEq, Eq, Structural)]
pub enum Run {
    Space,
    Digits,
    IdentChars,
    KeywordChars,
    /// String content: anything but a quote that no backslash escapes.
    StringChars,
}

/// Whether the run of kind `run` goes on at position `k`.
pub open spec fn continues(s: Seq<char>, k: int, run: Run) -> bool {
    match run {
        Run::Space => is_space(s[k]),
        Run::Digits => is_digit(s[k]),
        Run::IdentChars => is_ident_char(s[k]),
        Run::KeywordChars => !ends_keyword(s[k]),
        Run::StringChars => !(s[k] == '"' && (k == 0 || s[k - 1] != '\\')),
    }
}

/// Where the run of kind `run` that starts at `i` ends: the first position from `i` on
/// where it does not go on, or the end of the text.
pub open spec fn span_end(s: Seq<char>, i: int, run: Run) -> int
    decreases s.len() - i,
{
    if 0 <= i < s.len() && continues(s, i, run) {
        span_end(s, i + 1, run)
    } else {
        i
    }
}

/// The token that starts at the first non-whitespace character from `i` on.
pub open spec fn token_at(s: Seq<char>, i: int) -> Result<(TokenView, int), ErrorKindView> {
    let j = span_end(s, i, Run::Space);
    if j >= s.len() {
        Err(ErrorKindView::Eof)
    } else {
        let c = s[j];
        if c == '=' {
            Ok((TokenView::Assignment, j + 1))
        } else if c == ';' {
            Ok((TokenView::Seperator, j + 1))
        } else if c == '{' {
            Ok((TokenView::StartBlock, j + 1))
        } else if c == '}' {
            Ok((TokenView::EndBlock, j + 1))
        } else if is_ident_start(c) {
            let e = span_end(s, j, Run::IdentChars);
            Ok((TokenView::Ident(s.subrange(j, e)), e))
        } else {
            Err(ErrorKindView::UnexpectedChar(c))
        }
    }
}

/// String content with its escapes undone: a backslash before a quote is dropped, and
/// every other backslash is kept as it stands, with the character after it.
pub open spec fn unescape(t: Seq<char>) -> Seq<char>
    decreases t.len(),
{
    if t.len() == 0 {
        t
    } else if t[0] == '\\' {
        if t.len() == 1 {
            t
        } else if t[1] == '"' {
            seq!['"'] + unescape(t.subrange(2, t.len() as int))
        } else {
            seq!['\\', t[1]] + unescape(t.subrange(2, t.len() as int))
        }
    } else {
        seq![t[0]] + unescape(t.subrange(1, t.len() as int))
    }
}

/// The quoted string whose opening quote stands at `j`.
pub open spec fn string_at(s: Seq<char>, j: int) -> Result<(ValueView, int), ErrorKindView> {
    let q = span_end(s, j + 1, Run::StringChars);
    if q >= s.len() {
        Err(ErrorKindView::UnquotedString)
    } else {
        Ok((ValueView::String(unescape(s.subrange(j + 1, q))), q + 1))
    }
}

/// The error for a run of digits that is missing at `at`.
pub open spec fn no_digits_at(s: Seq<char>, at: int) -> ErrorKindView {
    if at < s.len() {
        ErrorKindView::UnexpectedChar(s[at])
    } else {
        ErrorKindView::Eof
    }
}

/// The number that starts at `j`, on a digit or a sign: an optional sign and digits make an
/// integer; digits, a point and digits (one of the two runs may be empty) make a decimal,
/// optionally followed by `e` or `E`, an optional sign and the digits of the exponent.
/// Integers and exponents, with their signs, must fit in 32 bits.
pub open spec fn number_at(s: Seq<char>, j: int) -> Result<(ValueView, int), ErrorKindView> {
    let negative = s[j] == '-';
    let a = if s[j] == '+' || s[j] == '-' {
        j + 1
    } else {
        j
    };
    let d1 = span_end(s, a, Run::Digits);
    if d1 < s.len() && s[d1] == '.' {
        let f = d1 + 1;
        let d2 = span_end(s, f, Run::Digits);
        if d1 == a && d2 == f {
            Err(ErrorKindView::UnexpectedChar('.'))
        } else {
            let whole = s.subrange(a, d1);
            let fraction = s.subrange(f, d2);
            if d2 < s.len() && (s[d2] == 'e' || s[d2] == 'E') {
                let e = d2 + 1;
                if e >= s.len() {
                    Err(ErrorKindView::Eof)
                } else {
                    let g = if s[e] == '+' || s[e] == '-' {
                        e + 1
                    } else {
                        e
                    };
                    let d3 = span_end(s, g, Run::Digits);
                    let v = digits_value(s.subrange(g, d3));
                    if d3 == g {
                        Err(no_digits_at(s, g))
                    } else if v > magnitude_limit(s[e] == '-') {
                        Err(ErrorKindView::UnexpectedChar(s[g]))
                    } else {
                        let exponent = if s[e] == '-' {
                            -v
                        } else {
                            v as int
                        };
                        Ok((ValueView::Float(DecimalView { negative, whole, fraction, exponent }), d3))
                    }
                }
            } else {
                Ok((ValueView::Float(DecimalView { negative, whole, fraction, exponent: 0 }), d2))
            }
        }
    } else {
        let v = digits_value(s.subrange(a, d1));
        if d1 == a {
            Err(no_digits_at(s, a))
        } else if v > magnitude_limit(negative) {
            Err(ErrorKindView::UnexpectedChar(s[a]))
        } else {
            Ok((ValueView::Integer(if negative { -v } else { v as int }), d1))
        }
    }
}

/// The bare keyword that starts at `j`: only `true` and `false` are values.
pub open spec fn keyword_at(s: Seq<char>, j: int) -> Result<(ValueView, int), ErrorKindView> {
    let e = span_end(s, j, Run::KeywordChars);
    let word = s.subrange(j, e);
    if word == seq!['t', 'r', 'u', 'e'] {
        Ok((ValueView::Boolean(true), e))
    } else if word == seq!['f', 'a', 'l', 's', 'e'] {
        Ok((ValueView::Boolean(false), e))
    } else {
        Err(ErrorKindView::InvalidKeyword(word))
    }
}

/// The value that starts at the first non-whitespace character from `i` on: a quoted
/// string, a number (never a hexadecimal one), or a boolean keyword.
pub open spec fn value_at(s: Seq<char>, i: int) -> Result<(ValueView, int), ErrorKindView> {
    let j = span_end(s, i, Run::Space);
    if j >= s.len() {
        Err(ErrorKindView::Eof)
    } else if s[j] == '"' {
        string_at(s, j)
    } else if is_digit(s[j]) || s[j] == '+' || s[j] == '-' {
        number_at(s, j)
    } else {
        keyword_at(s, j)
    }
}

/// A hexadecimal digit's value.
pub open spec fn hex_digit_of(c: char) -> nat {
    if '0' <= c <= '9' {
        (c as int - '0' as int) as nat
    } else if 'a' <= c <= 'f' {
        (c as int - 'a' as int + 10) as nat
    } else {
        (c as int - 'A' as int + 10) as nat
    }
}

pub open spec fn is_hex_digit(c: char) -> bool {
    is_digit(c) || ('a' <= c <= 'f') || ('A' <= c <= 'F')
}

/// The number that a run of hexadecimal digits writes.
pub open spec fn hex_value(d: Seq<char>) -> nat
    decreases d.len(),
{
    if d.len() == 0 {
        0
    } else {
        hex_value(d.drop_last()) * 16 + hex_digit_of(d.last())
    }
}

/// Where the run of hexadecimal digits from `i` on ends.
pub open spec fn hex_end(s: Seq<char>, i: int) -> int
    decreases s.len() - i,
{
    if 0 <= i < s.len() && is_hex_digit(s[i]) {
        hex_end(s, i + 1)
    } else {
        i
    }
}

/// The hexadecimal integer `0x...` that starts at `j`.
pub open spec fn hex_at(s: Seq<char>, j: int) -> Result<(ValueView, int), ErrorKindView> {
    if j + 1 >= s.len() {
        Err(ErrorKindView::Eof)
    } else if s[j] != '0' {
        Err(ErrorKindView::UnexpectedChar(s[j]))
    } else if s[j + 1] != 'x' {
        Err(ErrorKindView::UnexpectedChar(s[j + 1]))
    } else {
        let e = hex_end(s, j + 2);
        let v = hex_value(s.subrange(j + 2, e));
        if e == j + 2 {
            Err(no_digits_at(s, e))
        } else if v > i32_max() {
            Err(ErrorKindView::UnexpectedChar(s[j + 2]))
        } else {
            Ok((ValueView::Integer(v as int), e))
        }
    }
}

// ----------------------------------------------------------------------------------------
// Facts about the grammar
// ----------------------------------------------------------------------------------------

/// A run ends at `j` when it goes on everywhere from `i` to `j` and not at `j`.
pub proof fn lemma_span_end(s: Seq<char>, i: int, j: int, run: Run)
    requires
        0 <= i <= j <= s.len(),
        forall|k: int| i <= k < j ==> continues(s, k, run),
        j == s.len() || !continues(s, j, run),
    ensures
        span_end(s, i, run) == j,
    decreases j - i,
{
    if i < j {
        lemma_span_end(s, i + 1, j, run);
    }
}

/// A run ends within the text, and goes on everywhere before its end.
pub proof fn lemma_span_end_bounds(s: Seq<char>, i: int, run: Run)
    requires
        0 <= i <= s.len(),
    ensures
        i <= span_end(s, i, run) <= s.len(),
        forall|k: int| i <= k < span_end(s, i, run) ==> continues(s, k, run),
        span_end(s, i, run) == s.len() || !continues(s, span_end(s, i, run), run),
    decreases s.len() - i,
{
    if i < s.len() && continues(s, i, run) {
        lemma_span_end_bounds(s, i + 1, run);
    }
}

pub proof fn lemma_hex_end(s: Seq<char>, i: int, j: int)
    requires
        0 <= i <= j <= s.len(),
        forall|k: int| i <= k < j ==> is_hex_digit(s[k]),
        j == s.len() || !is_hex_digit(s[j]),
    ensures
        hex_end(s, i) == j,
    decreases j - i,
{
    if i < j {
        lemma_hex_end(s, i + 1, j);
    }
}

/// Reading a token, when it succeeds, moves forward and stays within the text.
pub proof fn lemma_token_advances(s: Seq<char>, i: int)
    requires
        0 <= i <= s.len(),
    ensures
        token_at(s, i) matches Ok((_, j)) ==> i < j <= s.len(),
{
    lemma_span_end_bounds(s, i, Run::Space);
    let j = span_end(s, i, Run::Space);
    if j < s.len() {
        lemma_span_end_bounds(s, j, Run::IdentChars);
    }
}

/// Reading a value, when it succeeds, moves forward and stays within the text.
pub proof fn lemma_value_advances(s: Seq<char>, i: int)
    requires
        0 <= i <= s.len(),
    ensures
        value_at(s, i) matches Ok((_, j)) ==> i < j <= s.len(),
{
    lemma_span_end_bounds(s, i, Run::Space);
    let j = span_end(s, i, Run::Space);
    if j < s.len() {
        if s[j] == '"' {
            lemma_span_end_bounds(s, j + 1, Run::StringChars);
        } else if is_digit(s[j]) || s[j] == '+' || s[j] == '-' {
            let a = if s[j] == '+' || s[j] == '-' {
                j + 1
            } else {
                j
            };
            lemma_span_end_bounds(s, a, Run::Digits);
            let d1 = span_end(s, a, Run::Digits);
            if d1 < s.len() && s[d1] == '.' {
                lemma_span_end_bounds(s, d1 + 1, Run::Digits);
                let d2 = span_end(s, d1 + 1, Run::Digits);
                if d2 + 1 < s.len() {
                    let e = d2 + 1;
                    let g = if s[e] == '+' || s[e] == '-' {
                        e + 1
                    } else {
                        e
                    };
                    lemma_span_end_bounds(s, g, Run::Digits);
                }
            }
        } else {
            lemma_span_end_bounds(s, j, Run::KeywordChars);
            if span_end(s, j, Run::KeywordChars) == j {
                assert(s.subrange(j, j).len() == 0);
            }
        }
    }
}

/// A run of digits that starts with a run worth more than `bound` is worth more too.
pub proof fn lemma_digits_value_prefix(d: Seq<char>, n: int)
    requires
        0 <= n <= d.len(),
        forall|k: int| 0 <= k < d.len() ==> is_digit(#[trigger] d[k]),
    ensures
        digits_value(d.subrange(0, n)) <= digits_value(d),
    decreases d.len() - n,
{
    if n < d.len() {
        let longer = d.subrange(0, n + 1);
        assert(longer.drop_last() =~= d.subrange(0, n));
        lemma_digits_value_prefix(d, n + 1);
    } else {
        assert(d.subrange(0, n) =~= d);
    }
}

pub proof fn lemma_hex_value_prefix(d: Seq<char>, n: int)
    requires
        0 <= n <= d.len(),
        forall|k: int| 0 <= k < d.len() ==> is_hex_digit(#[trigger] d[k]),
    ensures
        hex_value(d.subrange(0, n)) <= hex_value(d),
    decreases d.len() - n,
{
    if n < d.len() {
        let longer = d.subrange(0, n + 1);
        assert(longer.drop_last() =~= d.subrange(0, n));
        lemma_hex_value_prefix(d, n + 1);
    } else {
        assert(d.subrange(0, n) =~= d);
    }
}

/// The default entry point reads no hexadecimal literal: on `0x...` it reads the integer
/// zero and stops at the `x`.
pub proof fn lemma_no_hex_by_default(s: Seq<char>, i: int)
    requires
        0 <= i <= s.len(),
        span_end(s, i, Run::Space) + 1 < s.len(),
        s[span_end(s, i, Run::Space)] == '0',
        s[span_end(s, i, Run::Space) + 1] == 'x',
    ensures
        value_at(s, i) == Ok::<(ValueView, int), ErrorKindView>(
            (ValueView::Integer(0), span_end(s, i, Run::Space) + 1),
        ),
{
    let j = span_end(s, i, Run::Space);
    lemma_span_end_bounds(s, i, Run::Space);
    lemma_span_end(s, j, j + 1, Run::Digits);
    let d = s.subrange(j, j + 1);
    assert(d.drop_last() =~= Seq::<char>::empty());
    assert(d.last() == '0');
    assert(digits_value(Seq::<char>::empty()) == 0);
    assert(digits_value(d) == 0);
}

// ----------------------------------------------------------------------------------------
// Reading is unchanged by text appended after a line feed
// ----------------------------------------------------------------------------------------

/// The text is not empty and ends with a line feed.
pub open spec fn ends_line(a: Seq<char>) -> bool {
    a.len() > 0 && a.last() == '\n'
}

/// A run that ends inside `a` ends at the same place when more text follows.
pub proof fn lemma_span_inside(a: Seq<char>, b: Seq<char>, i: int, run: Run)
    requires
        0 <= i <= a.len(),
        span_end(a, i, run) < a.len(),
    ensures
        span_end(a + b, i, run) == span_end(a, i, run),
    decreases a.len() - i,
{
    let s = a + b;
    if i < a.len() {
        assert(s[i] == a[i]);
        if i > 0 {
            assert(s[i - 1] == a[i - 1]);
        }
        if continues(a, i, run) {
            lemma_span_inside(a, b, i + 1, run);
        }
    }
}

/// Runs of digits, identifier characters and keyword characters stop at a line feed.
pub proof fn lemma_span_stops(a: Seq<char>, b: Seq<char>, i: int, run: Run)
    requires
        ends_line(a),
        0 <= i < a.len(),
        run == Run::Digits || run == Run::IdentChars || run == Run::KeywordChars,
    ensures
        i <= span_end(a, i, run) < a.len(),
        span_end(a + b, i, run) == span_end(a, i, run),
{
    lemma_span_end_bounds(a, i, run);
    if span_end(a, i, run) == a.len() {
        assert(continues(a, a.len() - 1, run));
    }
    lemma_span_inside(a, b, i, run);
}

/// Whitespace up to the end of `a` is skipped on into what follows.
pub proof fn lemma_space_tail(a: Seq<char>, b: Seq<char>, i: int)
    requires
        0 <= i <= a.len(),
        forall|k: int| i <= k < a.len() ==> is_space(#[trigger] a[k]),
    ensures
        span_end(a + b, i, Run::Space) == span_end(a + b, a.len() as int, Run::Space),
    decreases a.len() - i,
{
    if i < a.len() {
        assert((a + b)[i] == a[i]);
        lemma_space_tail(a, b, i + 1);
    }
}

pub proof fn lemma_token_prefix(a: Seq<char>, b: Seq<char>, i: int)
    requires
        ends_line(a),
        0 <= i <= a.len(),
        token_at(a, i) is Ok,
    ensures
        token_at(a + b, i) == token_at(a, i),
{
    let s = a + b;
    lemma_span_end_bounds(a, i, Run::Space);
    let j = span_end(a, i, Run::Space);
    lemma_span_inside(a, b, i, Run::Space);
    assert(s[j] == a[j]);
    if is_ident_start(a[j]) {
        lemma_span_stops(a, b, j, Run::IdentChars);
        assert(s.subrange(j, span_end(a, j, Run::IdentChars)) =~= a.subrange(
            j,
            span_end(a, j, Run::IdentChars),
        ));
    }
}

pub proof fn lemma_number_prefix(a: Seq<char>, b: Seq<char>, j: int)
    requires
        ends_line(a),
        0 <= j < a.len(),
    ensures
        number_at(a + b, j) == number_at(a, j),
{
    let s = a + b;
    let n = a.len() as int;
    assert(s[j] == a[j]);
    let a0 = if a[j] == '+' || a[j] == '-' {
        j + 1
    } else {
        j
    };
    assert(a0 < n);
    lemma_span_stops(a, b, a0, Run::Digits);
    let d1 = span_end(a, a0, Run::Digits);
    assert(s[d1] == a[d1]);
    assert(s.subrange(a0, d1) =~= a.subrange(a0, d1));
    assert(s[a0] == a[a0]);
    if a[d1] == '.' {
        let f = d1 + 1;
        assert(f < n);
        lemma_span_stops(a, b, f, Run::Digits);
        let d2 = span_end(a, f, Run::Digits);
        assert(s[d2] == a[d2]);
        assert(s.subrange(f, d2) =~= a.subrange(f, d2));
        if a[d2] == 'e' || a[d2] == 'E' {
            let e = d2 + 1;
            assert(e < n);
            assert(s[e] == a[e]);
            let g = if a[e] == '+' || a[e] == '-' {
                e + 1
            } else {
                e
            };
            assert(g < n);
            lemma_span_stops(a, b, g, Run::Digits);
            let d3 = span_end(a, g, Run::Digits);
            assert(s[g] == a[g]);
            assert(s.subrange(g, d3) =~= a.subrange(g, d3));
        }
    }
}

pub proof fn lemma_keyword_prefix(a: Seq<char>, b: Seq<char>, j: int)
    requires
        ends_line(a),
        0 <= j < a.len(),
    ensures
        keyword_at(a + b, j) == keyword_at(a, j),
{
    lemma_span_stops(a, b, j, Run::KeywordChars);
    let e = span_end(a, j, Run::KeywordChars);
    assert((a + b).subrange(j, e) =~= a.subrange(j, e));
}

pub proof fn lemma_value_prefix(a: Seq<char>, b: Seq<char>, i: int)
    requires
        ends_line(a),
        0 <= i <= a.len(),
        value_at(a, i) is Ok,
    ensures
        value_at(a + b, i) == value_at(a, i),
{
    let s = a + b;
    lemma_span_end_bounds(a, i, Run::Space);
    let j = span_end(a, i, Run::Space);
    lemma_span_inside(a, b, i, Run::Space);
    assert(s[j] == a[j]);
    if a[j] == '"' {
        lemma_span_end_bounds(a, j + 1, Run::StringChars);
        let q = span_end(a, j + 1, Run::StringChars);
        lemma_span_inside(a, b, j + 1, Run::StringChars);
        assert(s.subrange(j + 1, q) =~= a.subrange(j + 1, q));
    } else if is_digit(a[j]) || a[j] == '+' || a[j] == '-' {
        lemma_number_prefix(a, b, j);
    } else {
        lemma_keyword_prefix(a, b, j);
    }
}

} // verus!
