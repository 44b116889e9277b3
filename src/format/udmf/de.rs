//! Reading the map-definition language: the [`Tokenizer`] and the top-level [`Parser`].

use super::blocks::{Entry, TopLevelDeserializer, entry_view, key_at, key_view};
use super::syntax::{
    ErrorKindView, Run, TokenView, continues, hex_at, hex_value, i32_max, is_digit,
    is_hex_digit, keyword_at, lemma_hex_end, magnitude_limit, lemma_span_end, lemma_span_end_bounds,
    lemma_token_advances, no_digits_at, number_at, span_end, token_at, unescape, value_at,
};
use super::{Decimal, Shape, Value, digits_value, shape_name};
use crate::text::{chars_of, collect_chars, push_char, push_str};
use vstd::prelude::*;

verus! {

/// The string content from `a` up to `b` with its escapes undone.
fn unescape_chars(v: &Vec<char>, a: usize, b: usize) -> (r: String)
    requires
        a <= b <= v@.len(),
    ensures
        r@ == unescape(v@.subrange(a as int, b as int)),
{
    let ghost whole = v@.subrange(a as int, b as int);
    let mut out = String::new();
    let mut k: usize = a;
    while k < b
        invariant
            a <= k <= b,
            b <= v@.len(),
            whole == v@.subrange(a as int, b as int),
            out@ + unescape(v@.subrange(k as int, b as int)) == unescape(whole),
        decreases b - k,
    {
        let ghost before = out@;
        let ghost t = v@.subrange(k as int, b as int);
        if v[k] == '\\' {
            if k + 1 < b {
                let next = v[k + 1];
                assert(t.subrange(2, t.len() as int) =~= v@.subrange(k + 2, b as int));
                if next == '"' {
                    push_char(&mut out, '"');
                    assert(out@ + unescape(v@.subrange(k + 2, b as int)) =~= before + unescape(t));
                } else {
                    push_char(&mut out, '\\');
                    push_char(&mut out, next);
                    assert(out@ + unescape(v@.subrange(k + 2, b as int)) =~= before + unescape(t));
                }
                k = k + 2;
            } else {
                push_char(&mut out, '\\');
                assert(unescape(t) =~= seq!['\\']);
                assert(v@.subrange(b as int, b as int) =~= Seq::<char>::empty());
                assert(out@ + unescape(v@.subrange(b as int, b as int)) =~= before + unescape(t));
                k = b;
            }
        } else {
            push_char(&mut out, v[k]);
            assert(t.subrange(1, t.len() as int) =~= v@.subrange(k + 1, b as int));
            assert(out@ + unescape(v@.subrange(k + 1, b as int)) =~= before + unescape(t));
            k = k + 1;
        }
    }
    assert(v@.subrange(b as int, b as int) =~= Seq::<char>::empty());
    assert(out@ + Seq::<char>::empty() =~= out@);
    out
}

/// Undoes the escapes of string content: `\"` becomes `"`; every other backslash is kept,
/// with the character after it where there is one.
pub fn unescape_string(s: &str) -> (r: String)
    ensures
        r@ == unescape(s@),
{
    let v = chars_of(s);
    proof {
        assert(v@.subrange(0, v@.len() as int) =~= v@);
    }
    unescape_chars(&v, 0, v.len())
}

/// The number that the decimal digits from `a` up to `b` write, with a minus sign where
/// `negative`, where it fits in 32 bits.
fn digits_number(v: &Vec<char>, a: usize, b: usize, negative: bool) -> (r: Option<i32>)
    requires
        a <= b <= v@.len(),
        forall|k: int| a <= k < b ==> is_digit(#[trigger] v@[k]),
    ensures
        digits_value(v@.subrange(a as int, b as int)) <= magnitude_limit(negative) ==> r == Some(
            (if negative {
                -digits_value(v@.subrange(a as int, b as int))
            } else {
                digits_value(v@.subrange(a as int, b as int)) as int
            }) as i32,
        ),
        digits_value(v@.subrange(a as int, b as int)) > magnitude_limit(negative) ==> r is None,
{
    let limit: u64 = if negative {
        2147483648
    } else {
        2147483647
    };
    let mut acc: u64 = 0;
    let mut k: usize = a;
    while k < b
        invariant
            a <= k <= b,
            b <= v@.len(),
            forall|m: int| a <= m < b ==> is_digit(#[trigger] v@[m]),
            acc == digits_value(v@.subrange(a as int, k as int)),
            limit == magnitude_limit(negative),
            acc <= limit,
        decreases b - k,
    {
        let d = (v[k] as u32 - '0' as u32) as u64;
        assert(v@.subrange(a as int, k + 1).drop_last() =~= v@.subrange(a as int, k as int));
        acc = acc * 10 + d;
        k = k + 1;
        if acc > limit {
            proof {
                let d_all = v@.subrange(a as int, b as int);
                assert(d_all.subrange(0, k - a) =~= v@.subrange(a as int, k as int));
                super::syntax::lemma_digits_value_prefix(d_all, k - a);
            }
            return None;
        }
    }
    if negative {
        Some((0 - acc as i64) as i32)
    } else {
        Some(acc as i32)
    }
}

/// The number that the hexadecimal digits from `a` up to `b` write, where it fits in
/// 32 bits.
fn hex_number(v: &Vec<char>, a: usize, b: usize) -> (r: Option<i32>)
    requires
        a <= b <= v@.len(),
        forall|k: int| a <= k < b ==> is_hex_digit(#[trigger] v@[k]),
    ensures
        hex_value(v@.subrange(a as int, b as int)) <= i32_max() ==> r == Some(
            hex_value(v@.subrange(a as int, b as int)) as i32,
        ),
        hex_value(v@.subrange(a as int, b as int)) > i32_max() ==> r is None,
{
    let mut acc: u64 = 0;
    let mut k: usize = a;
    while k < b
        invariant
            a <= k <= b,
            b <= v@.len(),
            forall|m: int| a <= m < b ==> is_hex_digit(#[trigger] v@[m]),
            acc == hex_value(v@.subrange(a as int, k as int)),
            acc <= i32_max(),
        decreases b - k,
    {
        let c = v[k];
        let d: u64 = if '0' <= c && c <= '9' {
            (c as u32 - '0' as u32) as u64
        } else if 'a' <= c && c <= 'f' {
            (c as u32 - 'a' as u32 + 10) as u64
        } else {
            (c as u32 - 'A' as u32 + 10) as u64
        };
        assert(v@.subrange(a as int, k + 1).drop_last() =~= v@.subrange(a as int, k as int));
        acc = acc * 16 + d;
        k = k + 1;
        if acc > 2147483647 {
            proof {
                let d_all = v@.subrange(a as int, b as int);
                assert(d_all.subrange(0, k - a) =~= v@.subrange(a as int, k as int));
                super::syntax::lemma_hex_value_prefix(d_all, k - a);
            }
            return None;
        }
    }
    Some(acc as i32)
}

fn is_hex_char(c: char) -> (r: bool)
    ensures
        r == is_hex_digit(c),
{
    ('0' <= c && c <= '9') || ('a' <= c && c <= 'f') || ('A' <= c && c <= 'F')
}

// ----------------------------------------------------------------------------------------
// Tokens and errors
// ----------------------------------------------------------------------------------------

/// The tokens that [`Tokenizer::next_token`] produces.
#[derive(Clone, Debug, PartialEq, Eq, Hash)]
pub enum Token {
    /// An identifier.
    Ident(String),
    /// `=`, between a key and its value.
    Assignment,
    /// `;`, after each assignment.
    Seperator,
    /// `{`, the start of a block.
    StartBlock,
    /// `}`, the end of a block.
    EndBlock,
}

impl View for Token {
    type V = TokenView;

    open spec fn view(&self) -> TokenView {
        match self {
            Token::Ident(s) => TokenView::Ident(s@),
            Token::Assignment => TokenView::Assignment,
            Token::Seperator => TokenView::Seperator,
            Token::StartBlock => TokenView::StartBlock,
            Token::EndBlock => TokenView::EndBlock,
        }
    }
}

/// The token that a structural symbol stands for.
pub open spec fn symbol_token(c: char) -> Option<TokenView> {
    if c == '=' {
        Some(TokenView::Assignment)
    } else if c == ';' {
        Some(TokenView::Seperator)
    } else if c == '{' {
        Some(TokenView::StartBlock)
    } else if c == '}' {
        Some(TokenView::EndBlock)
    } else {
        None
    }
}

impl Token {
    /// The token for one of `=`, `;`, `{` and `}`; `UnexpectedChar` for any other character.
    pub fn from_symbol(value: char) -> (r: Result<Token, Error>)
        ensures
            symbol_token(value) matches Some(t) ==> (r matches Ok(tk) && tk@ == t),
            symbol_token(value) is None ==> (r matches Err(e) && e@ == ErrorKindView::UnexpectedChar(
                value,
            )),
    {
        match value {
            '=' => Ok(Token::Assignment),
            '{' => Ok(Token::StartBlock),
            '}' => Ok(Token::EndBlock),
            ';' => Ok(Token::Seperator),
            _ => Err(Error::unexpected_char(value)),
        }
    }
}

/// What went wrong.
#[derive(Clone, Debug, PartialEq)]
pub enum ErrorKind {
    /// A character that nothing at this point can start.
    UnexpectedChar(char),
    /// A string without its closing quote.
    UnquotedString,
    /// A bare word that is no value.
    InvalidKeyword(String),
    /// A value or block of another shape than the one asked for.
    InvalidType { expected: Shape, found: Shape },
    /// A top-level entry that does not start with an identifier.
    ExpectedIdent,
    /// A value not followed by `;`.
    ExpectedSeperator,
    /// A key inside a block not followed by `=`.
    ExpectedAssignment,
    /// A token that cannot stand where it stands.
    UnexpectedToken,
    /// A field that must be given and is not.
    MissingField(&'static str),
    /// A field given twice in one block.
    DuplicateField(&'static str),
    /// The text ended.
    Eof,
}

impl View for ErrorKind {
    type V = ErrorKindView;

    open spec fn view(&self) -> ErrorKindView {
        match self {
            ErrorKind::UnexpectedChar(c) => ErrorKindView::UnexpectedChar(*c),
            ErrorKind::UnquotedString => ErrorKindView::UnquotedString,
            ErrorKind::InvalidKeyword(s) => ErrorKindView::InvalidKeyword(s@),
            ErrorKind::InvalidType { expected, found } => ErrorKindView::InvalidType {
                expected: *expected,
                found: *found,
            },
            ErrorKind::ExpectedIdent => ErrorKindView::ExpectedIdent,
            ErrorKind::ExpectedSeperator => ErrorKindView::ExpectedSeperator,
            ErrorKind::ExpectedAssignment => ErrorKindView::ExpectedAssignment,
            ErrorKind::UnexpectedToken => ErrorKindView::UnexpectedToken,
            ErrorKind::MissingField(s) => ErrorKindView::MissingField(s@),
            ErrorKind::DuplicateField(s) => ErrorKindView::DuplicateField(s@),
            ErrorKind::Eof => ErrorKindView::Eof,
        }
    }
}

/// An error that occurs while reading the language.
#[derive(Clone, Debug, PartialEq)]
pub struct Error {
    kind: ErrorKind,
}

impl View for Error {
    type V = ErrorKindView;

    closed spec fn view(&self) -> ErrorKindView {
        self.kind@
    }
}

impl Error {
    /// An error of the given kind.
    pub fn new(kind: ErrorKind) -> (r: Error)
        ensures
            r@ == kind@,
    {
        Error { kind }
    }

    /// What went wrong.
    pub fn kind(&self) -> (r: &ErrorKind)
        ensures
            r@ == self@,
    {
        &self.kind
    }

    /// Whether the error is the end of the text.
    pub fn is_eof(&self) -> (r: bool)
        ensures
            r == (self@ is Eof),
    {
        matches!(self.kind, ErrorKind::Eof)
    }

    /// A sentence that describes the error.
    pub fn message(&self) -> (r: String)
        ensures
            r@ == message_of(self@),
    {
        let mut out = String::new();
        match &self.kind {
            ErrorKind::UnexpectedChar(c) => {
                push_str(&mut out, "unexpected: '");
                push_char(&mut out, *c);
                push_str(&mut out, "'");
            },
            ErrorKind::UnquotedString => push_str(&mut out, "unquoted string"),
            ErrorKind::InvalidKeyword(w) => {
                push_str(&mut out, "invalid keyword: \"");
                push_str(&mut out, w.as_str());
                push_str(&mut out, "\"");
            },
            ErrorKind::InvalidType { expected, found } => {
                push_str(&mut out, "invalid type ");
                push_str(&mut out, found.name());
                push_str(&mut out, ", expected ");
                push_str(&mut out, expected.name());
            },
            ErrorKind::ExpectedIdent => push_str(&mut out, "expected identifier"),
            ErrorKind::ExpectedSeperator => push_str(&mut out, "expected seperator ';'"),
            ErrorKind::ExpectedAssignment => push_str(&mut out, "expected assignment token"),
            ErrorKind::UnexpectedToken => push_str(&mut out, "unexpected token"),
            ErrorKind::MissingField(f) => {
                push_str(&mut out, "missing field `");
                push_str(&mut out, f);
                push_str(&mut out, "`");
            },
            ErrorKind::DuplicateField(f) => {
                push_str(&mut out, "duplicate field `");
                push_str(&mut out, f);
                push_str(&mut out, "`");
            },
            ErrorKind::Eof => push_str(&mut out, "got eof"),
        }
        assert(out@ =~= message_of(self@));
        out
    }

    pub fn eof() -> (r: Error)
        ensures
            r@ == ErrorKindView::Eof,
    {
        Error { kind: ErrorKind::Eof }
    }

    pub fn expected_seperator() -> (r: Error)
        ensures
            r@ == ErrorKindView::ExpectedSeperator,
    {
        Error { kind: ErrorKind::ExpectedSeperator }
    }

    pub fn expected_ident() -> (r: Error)
        ensures
            r@ == ErrorKindView::ExpectedIdent,
    {
        Error { kind: ErrorKind::ExpectedIdent }
    }

    pub fn unquoted_string() -> (r: Error)
        ensures
            r@ == ErrorKindView::UnquotedString,
    {
        Error { kind: ErrorKind::UnquotedString }
    }

    pub fn unexpected_char(ch: char) -> (r: Error)
        ensures
            r@ == ErrorKindView::UnexpectedChar(ch),
    {
        Error { kind: ErrorKind::UnexpectedChar(ch) }
    }

    pub fn invalid_type(expected: Shape, found: Shape) -> (r: Error)
        ensures
            r@ == (ErrorKindView::InvalidType { expected, found }),
    {
        Error { kind: ErrorKind::InvalidType { expected, found } }
    }

    pub fn missing_field(field: &'static str) -> (r: Error)
        ensures
            r@ == ErrorKindView::MissingField(field@),
    {
        Error { kind: ErrorKind::MissingField(field) }
    }

    pub fn duplicate_field(field: &'static str) -> (r: Error)
        ensures
            r@ == ErrorKindView::DuplicateField(field@),
    {
        Error { kind: ErrorKind::DuplicateField(field) }
    }
}

/// The text that describes an error.
pub open spec fn message_of(k: ErrorKindView) -> Seq<char> {
    match k {
        ErrorKindView::UnexpectedChar(c) => "unexpected: '"@ + seq![c] + "'"@,
        ErrorKindView::UnquotedString => "unquoted string"@,
        ErrorKindView::InvalidKeyword(w) => "invalid keyword: \""@ + w + "\""@,
        ErrorKindView::InvalidType { expected, found } => "invalid type "@ + shape_name(found)
            + ", expected "@ + shape_name(expected),
        ErrorKindView::ExpectedIdent => "expected identifier"@,
        ErrorKindView::ExpectedSeperator => "expected seperator ';'"@,
        ErrorKindView::ExpectedAssignment => "expected assignment token"@,
        ErrorKindView::UnexpectedToken => "unexpected token"@,
        ErrorKindView::MissingField(f) => "missing field `"@ + f + "`"@,
        ErrorKindView::DuplicateField(f) => "duplicate field `"@ + f + "`"@,
        ErrorKindView::Eof => "got eof"@,
    }
}

/// The result of a read, as mathematical values.
pub open spec fn result_view<T: View>(r: Result<T, Error>) -> Result<T::V, ErrorKindView> {
    match r {
        Ok(t) => Ok(t@),
        Err(e) => Err(e@),
    }
}

// ----------------------------------------------------------------------------------------
// The tokenizer
// ----------------------------------------------------------------------------------------

/// A cursor over a text that reads tokens and values. It never goes back.
#[derive(Debug)]
pub struct Tokenizer {
    input: Vec<char>,
    pos: usize,
}

impl Tokenizer {
    #[verifier::type_invariant]
    spec fn inv(&self) -> bool {
        self.pos <= self.input@.len()
    }

    /// The whole text.
    pub closed spec fn text(&self) -> Seq<char> {
        self.input@
    }

    /// The position of the next character to read.
    pub closed spec fn cursor(&self) -> int {
        self.pos as int
    }

    /// A tokenizer at the start of `input`.
    pub fn new(input: &str) -> (r: Tokenizer)
        ensures
            r.text() == input@,
            r.cursor() == 0,
    {
        Tokenizer { input: chars_of(input), pos: 0 }
    }

    /// Where the run of kind `run` from `i` on ends.
    fn run_end(&self, i: usize, run: Run) -> (r: usize)
        requires
            i <= self.text().len(),
        ensures
            r == span_end(self.text(), i as int, run),
            i <= r <= self.text().len(),
    {
        let mut k = i;
        while k < self.input.len() && self.goes_on(k, run)
            invariant
                i <= k <= self.input@.len(),
                forall|m: int| i <= m < k ==> continues(self.input@, m, run),
            decreases self.input@.len() - k,
        {
            k = k + 1;
        }
        proof {
            lemma_span_end(self.input@, i as int, k as int, run);
        }
        k
    }

    /// Whether the run of kind `run` goes on at `k`.
    fn goes_on(&self, k: usize, run: Run) -> (r: bool)
        requires
            k < self.text().len(),
        ensures
            r == continues(self.text(), k as int, run),
    {
        let c = self.input[k];
        match run {
            Run::Space => c == ' ' || c == '\t' || c == '\n' || c == '\x0C' || c == '\r',
            Run::Digits => '0' <= c && c <= '9',
            Run::IdentChars => ('A' <= c && c <= 'Z') || ('a' <= c && c <= 'z') || c == '_' || (
            '0' <= c && c <= '9'),
            Run::KeywordChars => !(c == ' ' || c == '\t' || c == '\n' || c == '\x0C' || c == '\r'
                || c == '=' || c == ';' || c == '{' || c == '}' || c == '"'),
            Run::StringChars => !(c == '"' && (k == 0 || self.input[k - 1] != '\\')),
        }
    }

    /// Moves past any whitespace.
    fn skip_whitespace(&mut self)
        ensures
            final(self).text() == old(self).text(),
            final(self).cursor() == span_end(old(self).text(), old(self).cursor(), Run::Space),
    {
        proof {
            use_type_invariant(&*self);
        }
        self.pos = self.run_end(self.pos, Run::Space);
    }

    /// The next character, without moving.
    fn peek_char(&self) -> (r: Result<char, Error>)
        ensures
            self.cursor() < self.text().len() ==> r == Ok::<char, Error>(
                self.text()[self.cursor()],
            ),
            self.cursor() >= self.text().len() ==> (r matches Err(e) && e@ is Eof),
    {
        if self.pos < self.input.len() {
            Ok(self.input[self.pos])
        } else {
            Err(Error::eof())
        }
    }

    /// Reads the next character.
    fn next_char(&mut self) -> (r: Result<char, Error>)
        ensures
            final(self).text() == old(self).text(),
            old(self).cursor() < old(self).text().len() ==> r == Ok::<char, Error>(
                old(self).text()[old(self).cursor()],
            ) && final(self).cursor() == old(self).cursor() + 1,
            old(self).cursor() >= old(self).text().len() ==> (r matches Err(e) && e@ is Eof),
    {
        if self.pos < self.input.len() {
            let ch = self.input[self.pos];
            self.pos = self.pos + 1;
            Ok(ch)
        } else {
            Err(Error::eof())
        }
    }

    /// The token that starts at the first non-whitespace character from `i` on, and the
    /// position after it.
    fn token_from(&self, i: usize) -> (r: Result<(Token, usize), Error>)
        requires
            i <= self.text().len(),
        ensures
            match token_at(self.text(), i as int) {
                Ok((t, j)) => r matches Ok((tk, k)) && tk@ == t && k == j,
                Err(e) => r matches Err(x) && x@ == e,
            },
    {
        let j = self.run_end(i, Run::Space);
        if j >= self.input.len() {
            return Err(Error::eof());
        }
        let c = self.input[j];
        match Token::from_symbol(c) {
            Ok(token) => Ok((token, j + 1)),
            Err(error) => {
                if ('A' <= c && c <= 'Z') || ('a' <= c && c <= 'z') || c == '_' {
                    let e = self.run_end(j, Run::IdentChars);
                    Ok((Token::Ident(collect_chars(&self.input, j, e)), e))
                } else {
                    Err(error)
                }
            },
        }
    }

    /// Reads the next token: after any whitespace, one of `=`, `;`, `{`, `}`, or an
    /// identifier (letters, digits and underscores, not starting with a digit). At the end
    /// of the text it fails with `Eof`, which tells it apart from other failures.
    pub fn next_token(&mut self) -> (r: Result<Token, Error>)
        ensures
            final(self).text() == old(self).text(),
            0 <= old(self).cursor() <= old(self).text().len(),
            match token_at(old(self).text(), old(self).cursor()) {
                Ok((t, j)) => r matches Ok(tk) && tk@ == t && final(self).cursor() == j,
                Err(e) => r matches Err(x) && x@ == e && final(self).cursor() == span_end(
                    old(self).text(),
                    old(self).cursor(),
                    Run::Space,
                ),
            },
    {
        proof {
            use_type_invariant(&*self);
            lemma_token_advances(self.input@, self.pos as int);
        }
        match self.token_from(self.pos) {
            Ok((token, next)) => {
                self.pos = next;
                Ok(token)
            },
            Err(error) => {
                self.skip_whitespace();
                Err(error)
            },
        }
    }

    /// The token that [`Tokenizer::next_token`] would read, without moving.
    pub fn peek_token(&self) -> (r: Result<Token, Error>)
        ensures
            match token_at(self.text(), self.cursor()) {
                Ok((t, _)) => r matches Ok(tk) && tk@ == t,
                Err(e) => r matches Err(x) && x@ == e,
            },
    {
        proof {
            use_type_invariant(self);
        }
        let (token, _) = self.token_from(self.pos)?;
        Ok(token)
    }

    /// Reads the next value: after any whitespace, a quoted string, a number or `true` /
    /// `false`. At the end of the text it fails with `Eof`.
    pub fn next_value(&mut self) -> (r: Result<Value, Error>)
        ensures
            final(self).text() == old(self).text(),
            0 <= old(self).cursor() <= old(self).text().len(),
            match value_at(old(self).text(), old(self).cursor()) {
                Ok((v, j)) => r matches Ok(x) && x@ == v && final(self).cursor() == j,
                Err(e) => r matches Err(x) && x@ == e,
            },
            value_at(old(self).text(), old(self).cursor()) matches Err(
                ErrorKindView::InvalidKeyword(_),
            ) ==> final(self).cursor() == span_end(
                old(self).text(),
                span_end(old(self).text(), old(self).cursor(), Run::Space),
                Run::KeywordChars,
            ),
    {
        proof {
            use_type_invariant(&*self);
        }
        self.skip_whitespace();
        let ch = self.peek_char()?;
        if ch == '"' {
            self.next_char()?;
            let start = self.pos;
            let q = self.run_end(start, Run::StringChars);
            if q >= self.input.len() {
                return Err(Error::unquoted_string());
            }
            let out = unescape_chars(&self.input, start, q);
            self.pos = q + 1;
            Ok(Value::String(out))
        } else if ('0' <= ch && ch <= '9') || ch == '+' || ch == '-' {
            self.read_number()
        } else {
            self.read_keyword()
        }
    }

    /// Reads a bare keyword at the cursor.
    fn read_keyword(&mut self) -> (r: Result<Value, Error>)
        requires
            old(self).cursor() < old(self).text().len(),
        ensures
            final(self).text() == old(self).text(),
            match keyword_at(old(self).text(), old(self).cursor()) {
                Ok((v, j)) => r matches Ok(x) && x@ == v && final(self).cursor() == j,
                Err(e) => r matches Err(x) && x@ == e,
            },
            final(self).cursor() == span_end(old(self).text(), old(self).cursor(), Run::KeywordChars),
    {
        let ghost s = self.input@;
        let j = self.pos;
        let e = self.run_end(j, Run::KeywordChars);
        let ghost word = s.subrange(j as int, e as int);
        let n = e - j;
        if n == 4 && self.input[j] == 't' && self.input[j + 1] == 'r' && self.input[j + 2] == 'u'
            && self.input[j + 3] == 'e' {
            assert(word =~= seq!['t', 'r', 'u', 'e']);
            self.pos = e;
            Ok(Value::Boolean(true))
        } else if n == 5 && self.input[j] == 'f' && self.input[j + 1] == 'a' && self.input[j + 2]
            == 'l' && self.input[j + 3] == 's' && self.input[j + 4] == 'e' {
            assert(word =~= seq!['f', 'a', 'l', 's', 'e']);
            assert(word != seq!['t', 'r', 'u', 'e']);
            self.pos = e;
            Ok(Value::Boolean(false))
        } else {
            assert(word != seq!['t', 'r', 'u', 'e'] && word != seq!['f', 'a', 'l', 's', 'e']) by {
                let t = seq!['t', 'r', 'u', 'e'];
                let f = seq!['f', 'a', 'l', 's', 'e'];
                assert(t.len() == 4 && t[0] == 't' && t[1] == 'r' && t[2] == 'u' && t[3] == 'e');
                assert(f.len() == 5 && f[0] == 'f' && f[1] == 'a' && f[2] == 'l' && f[3] == 's'
                    && f[4] == 'e');
                if word == t {
                    assert(word[0] == s[j as int] && word[1] == s[j + 1] && word[2] == s[j + 2]
                        && word[3] == s[j + 3]);
                }
                if word == f {
                    assert(word[0] == s[j as int] && word[1] == s[j + 1] && word[2] == s[j + 2]
                        && word[3] == s[j + 3] && word[4] == s[j + 4]);
                }
            }
            self.pos = e;
            Err(Error::new(ErrorKind::InvalidKeyword(collect_chars(&self.input, j, e))))
        }
    }

    /// The error for digits that are missing at `at`.
    fn no_digits(&self, at: usize) -> (r: Error)
        requires
            at <= self.text().len(),
        ensures
            r@ == no_digits_at(self.text(), at as int),
    {
        if at < self.input.len() {
            Error::unexpected_char(self.input[at])
        } else {
            Error::eof()
        }
    }

    /// Reads a number at the cursor, which stands on a digit or a sign.
    fn read_number(&mut self) -> (r: Result<Value, Error>)
        requires
            old(self).cursor() < old(self).text().len(),
            is_digit(old(self).text()[old(self).cursor()]) || old(self).text()[old(self).cursor()] == '+' || old(self).text()[old(self).cursor()] == '-',
        ensures
            final(self).text() == old(self).text(),
            match number_at(old(self).text(), old(self).cursor()) {
                Ok((v, j)) => r matches Ok(x) && x@ == v && final(self).cursor() == j,
                Err(e) => r matches Err(x) && x@ == e,
            },
    {
        let ghost s = self.input@;
        let len = self.input.len();
        let j = self.pos;
        let sign = self.input[j];
        let negative = sign == '-';
        let a = if sign == '+' || sign == '-' {
            j + 1
        } else {
            j
        };
        let d1 = self.run_end(a, Run::Digits);
        proof {
            lemma_span_end_bounds(s, a as int, Run::Digits);
        }
        if d1 < len && self.input[d1] == '.' {
            let f = d1 + 1;
            let d2 = self.run_end(f, Run::Digits);
            if d1 == a && d2 == f {
                return Err(Error::unexpected_char('.'));
            }
            let whole = collect_chars(&self.input, a, d1);
            let fraction = collect_chars(&self.input, f, d2);
            if d2 < len && (self.input[d2] == 'e' || self.input[d2] == 'E') {
                let e = d2 + 1;
                if e >= len {
                    return Err(Error::eof());
                }
                let esign = self.input[e];
                let g = if esign == '+' || esign == '-' {
                    e + 1
                } else {
                    e
                };
                let d3 = self.run_end(g, Run::Digits);
                if d3 == g {
                    return Err(self.no_digits(g));
                }
                proof {
                    lemma_span_end_bounds(s, g as int, Run::Digits);
                    assert forall|k: int| g <= k < d3 implies is_digit(#[trigger] s[k]) by {
                        assert(continues(s, k, Run::Digits));
                    }
                }
                match digits_number(&self.input, g, d3, esign == '-') {
                    None => Err(Error::unexpected_char(self.input[g])),
                    Some(exponent) => {
                        self.pos = d3;
                        Ok(Value::Float(Decimal { negative, whole, fraction, exponent }))
                    },
                }
            } else {
                self.pos = d2;
                Ok(Value::Float(Decimal { negative, whole, fraction, exponent: 0 }))
            }
        } else {
            if d1 == a {
                return Err(self.no_digits(a));
            }
            proof {
                assert forall|k: int| a <= k < d1 implies is_digit(#[trigger] s[k]) by {
                    assert(continues(s, k, Run::Digits));
                }
            }
            match digits_number(&self.input, a, d1, negative) {
                None => Err(Error::unexpected_char(self.input[a])),
                Some(v) => {
                    self.pos = d1;
                    Ok(Value::Integer(v))
                },
            }
        }
    }

    /// Reads a hexadecimal integer written `0x` and hexadecimal digits, at the first
    /// non-whitespace character. [`Tokenizer::next_value`] never reads one; only this entry
    /// point does.
    pub fn read_number_zero_prefix(&mut self) -> (r: Result<Value, Error>)
        ensures
            final(self).text() == old(self).text(),
            match hex_at(
                old(self).text(),
                span_end(old(self).text(), old(self).cursor(), Run::Space),
            ) {
                Ok((v, j)) => r matches Ok(x) && x@ == v && final(self).cursor() == j,
                Err(e) => r matches Err(x) && x@ == e,
            },
    {
        self.skip_whitespace();
        let ghost s = self.input@;
        let len = self.input.len();
        let j = self.pos;
        if j >= len || len - j < 2 {
            return Err(Error::eof());
        }
        if self.input[j] != '0' {
            return Err(Error::unexpected_char(self.input[j]));
        }
        if self.input[j + 1] != 'x' {
            return Err(Error::unexpected_char(self.input[j + 1]));
        }
        let mut e = j + 2;
        while e < len && is_hex_char(self.input[e])
            invariant
                j + 2 <= e <= len,
                len == s.len(),
                s == self.input@,
                forall|m: int| j + 2 <= m < e ==> is_hex_digit(#[trigger] s[m]),
            decreases len - e,
        {
            e = e + 1;
        }
        proof {
            lemma_hex_end(s, j + 2, e as int);
        }
        if e == j + 2 {
            return Err(self.no_digits(e));
        }
        match hex_number(&self.input, j + 2, e) {
            None => Err(Error::unexpected_char(self.input[j + 2])),
            Some(v) => {
                self.pos = e;
                Ok(Value::Integer(v))
            },
        }
    }
}

// ----------------------------------------------------------------------------------------
// The parser
// ----------------------------------------------------------------------------------------

/// Reads a text as a sequence of top-level entries: a key, then what it is assigned.
/// Keys may repeat.
#[derive(Debug)]
pub struct Parser {
    tokenizer: Tokenizer,
}

impl Parser {
    /// The whole text.
    pub closed spec fn text(&self) -> Seq<char> {
        self.tokenizer.text()
    }

    /// The position of the next character to read.
    pub closed spec fn cursor(&self) -> int {
        self.tokenizer.cursor()
    }

    /// A parser at the start of `input`.
    pub fn new(input: &str) -> (r: Parser)
        ensures
            r.text() == input@,
            r.cursor() == 0,
    {
        Parser { tokenizer: Tokenizer::new(input) }
    }

    /// Reads the next top-level key, or `None` at the end of the text.
    pub fn next_key(&mut self) -> (r: Result<Option<String>, Error>)
        ensures
            final(self).text() == old(self).text(),
            0 <= old(self).cursor() <= old(self).text().len(),
            match key_at(old(self).text(), old(self).cursor()) {
                Ok((k, j)) => r matches Ok(x) && key_view(x) == k && final(self).cursor() == j,
                Err(e) => r matches Err(x) && x@ == e,
            },
    {
        let token = match self.tokenizer.next_token() {
            Ok(token) => token,
            Err(error) => {
                if error.is_eof() {
                    return Ok(None);
                }
                return Err(error);
            },
        };
        match token {
            Token::Ident(id) => Ok(Some(id)),
            _ => Err(Error::expected_ident()),
        }
    }

    /// Reads what the last key is assigned: `= value;` or a `{ ... }` block.
    pub fn next_value(&mut self) -> (r: Result<Entry, Error>)
        ensures
            final(self).text() == old(self).text(),
            0 <= old(self).cursor() <= old(self).text().len(),
            match super::blocks::entry_at(old(self).text(), old(self).cursor()) {
                Ok((en, j)) => r matches Ok(x) && entry_view(x) == en && final(self).cursor()
                    == j,
                Err(e) => r matches Err(x) && x@ == e,
            },
    {
        proof {
            use_type_invariant(&self.tokenizer);
        }
        let deserializer = TopLevelDeserializer::new(&mut self.tokenizer);
        deserializer.deserialize_any()
    }
}

} // verus!
