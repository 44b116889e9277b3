//! From tokens to entries: a key is assigned either one value (`= value;`) or a block of
//! assignments (`{ key = value; ... }`).

use super::de::{Error, Token, Tokenizer};
use super::syntax::{
    ErrorKindView, Run, TokenView, ends_line, lemma_token_advances, lemma_token_prefix,
    lemma_value_advances, lemma_value_prefix, span_end, token_at, value_at,
};
use super::{Value, ValueView};
use vstd::prelude::*;

verus! {

/// What a top-level key is assigned.
#[derive(Clone, Debug, PartialEq)]
pub enum Entry {
    /// `= value;`
    Scalar(Value),
    /// `{ key = value; ... }`, its assignments in written order. Keys may repeat.
    Block(Vec<(String, Value)>),
}

/// An [`Entry`] as a mathematical value.
pub enum EntryView {
    Scalar(ValueView),
    Block(Seq<(Seq<char>, ValueView)>),
}

/// The assignments of a block as mathematical values.
pub open spec fn fields_view(fields: Seq<(String, Value)>) -> Seq<(Seq<char>, ValueView)> {
    fields.map_values(|f: (String, Value)| (f.0@, f.1@))
}

/// A key that may be absent, as a mathematical value.
pub open spec fn key_view(k: Option<String>) -> Option<Seq<char>> {
    match k {
        Some(s) => Some(s@),
        None => None,
    }
}

pub open spec fn entry_view(e: Entry) -> EntryView {
    match e {
        Entry::Scalar(v) => EntryView::Scalar(v@),
        Entry::Block(fields) => EntryView::Block(fields_view(fields@)),
    }
}

/// The next top-level key, or `None` where only whitespace is left.
pub open spec fn key_at(s: Seq<char>, i: int) -> Result<(Option<Seq<char>>, int), ErrorKindView> {
    match token_at(s, i) {
        Err(ErrorKindView::Eof) => Ok((None, span_end(s, i, Run::Space))),
        Err(e) => Err(e),
        Ok((TokenView::Ident(k), j)) => Ok((Some(k), j)),
        Ok(_) => Err(ErrorKindView::ExpectedIdent),
    }
}

/// A value and the `;` after it.
pub open spec fn scalar_at(s: Seq<char>, i: int) -> Result<(ValueView, int), ErrorKindView> {
    match value_at(s, i) {
        Err(e) => Err(e),
        Ok((v, j)) => match token_at(s, j) {
            Err(e) => Err(e),
            Ok((TokenView::Seperator, k)) => Ok((v, k)),
            Ok(_) => Err(ErrorKindView::ExpectedSeperator),
        },
    }
}

/// Inside a block: the next key and the `=` after it, or `None` at the closing `}`.
pub open spec fn block_key_at(s: Seq<char>, i: int) -> Result<
    (Option<Seq<char>>, int),
    ErrorKindView,
> {
    match token_at(s, i) {
        Err(e) => Err(e),
        Ok((TokenView::EndBlock, j)) => Ok((None, j)),
        Ok((TokenView::Ident(k), j)) => match token_at(s, j) {
            Err(e) => Err(e),
            Ok((TokenView::Assignment, m)) => Ok((Some(k), m)),
            Ok(_) => Err(ErrorKindView::ExpectedAssignment),
        },
        Ok(_) => Err(ErrorKindView::UnexpectedToken),
    }
}

/// The assignments of a block whose `{` has been read, up to and including its `}`.
pub open spec fn block_fields_at(s: Seq<char>, i: int) -> Result<
    (Seq<(Seq<char>, ValueView)>, int),
    ErrorKindView,
>
    decreases s.len() - i,
    when 0 <= i <= s.len()
{
    match block_key_at(s, i) {
        Err(e) => Err(e),
        Ok((None, j)) => Ok((Seq::empty(), j)),
        Ok((Some(k), j)) => match scalar_at(s, j) {
            Err(e) => Err(e),
            Ok((v, m)) => {
                proof {
                    lemma_block_key_advances(s, i);
                    lemma_scalar_advances(s, j);
                }
                match block_fields_at(s, m) {
                    Err(e) => Err(e),
                    Ok((rest, p)) => Ok((seq![(k, v)] + rest, p)),
                }
            },
        },
    }
}

/// What a top-level key is assigned, after the key.
pub open spec fn entry_at(s: Seq<char>, i: int) -> Result<(EntryView, int), ErrorKindView> {
    match token_at(s, i) {
        Err(e) => Err(e),
        Ok((TokenView::Assignment, j)) => match scalar_at(s, j) {
            Err(e) => Err(e),
            Ok((v, k)) => Ok((EntryView::Scalar(v), k)),
        },
        Ok((TokenView::StartBlock, j)) => match block_fields_at(s, j) {
            Err(e) => Err(e),
            Ok((fields, k)) => Ok((EntryView::Block(fields), k)),
        },
        Ok(_) => Err(ErrorKindView::UnexpectedToken),
    }
}

/// A result with a prefix of assignments put before the ones it holds.
pub open spec fn prepend(
    pre: Seq<(Seq<char>, ValueView)>,
    r: Result<(Seq<(Seq<char>, ValueView)>, int), ErrorKindView>,
) -> Result<(Seq<(Seq<char>, ValueView)>, int), ErrorKindView> {
    match r {
        Err(e) => Err(e),
        Ok((rest, p)) => Ok((pre + rest, p)),
    }
}

pub proof fn lemma_block_key_advances(s: Seq<char>, i: int)
    requires
        0 <= i <= s.len(),
    ensures
        block_key_at(s, i) matches Ok((_, j)) ==> i < j <= s.len(),
{
    lemma_token_advances(s, i);
    if let Ok((_, j)) = token_at(s, i) {
        lemma_token_advances(s, j);
    }
}

pub proof fn lemma_scalar_advances(s: Seq<char>, i: int)
    requires
        0 <= i <= s.len(),
    ensures
        scalar_at(s, i) matches Ok((_, j)) ==> i < j <= s.len(),
{
    lemma_value_advances(s, i);
    if let Ok((_, j)) = value_at(s, i) {
        lemma_token_advances(s, j);
    }
}

pub proof fn lemma_scalar_prefix(a: Seq<char>, b: Seq<char>, i: int)
    requires
        ends_line(a),
        0 <= i <= a.len(),
        scalar_at(a, i) is Ok,
    ensures
        scalar_at(a + b, i) == scalar_at(a, i),
{
    lemma_value_advances(a, i);
    lemma_value_prefix(a, b, i);
    let j = value_at(a, i)->Ok_0.1;
    lemma_token_prefix(a, b, j);
}

pub proof fn lemma_block_key_prefix(a: Seq<char>, b: Seq<char>, i: int)
    requires
        ends_line(a),
        0 <= i <= a.len(),
        block_key_at(a, i) is Ok,
    ensures
        block_key_at(a + b, i) == block_key_at(a, i),
{
    lemma_token_advances(a, i);
    lemma_token_prefix(a, b, i);
    if let Ok((TokenView::Ident(_), j)) = token_at(a, i) {
        lemma_token_prefix(a, b, j);
    }
}

pub proof fn lemma_block_fields_prefix(a: Seq<char>, b: Seq<char>, i: int)
    requires
        ends_line(a),
        0 <= i <= a.len(),
        block_fields_at(a, i) is Ok,
    ensures
        block_fields_at(a + b, i) == block_fields_at(a, i),
    decreases a.len() - i,
{
    lemma_block_key_advances(a, i);
    lemma_block_key_prefix(a, b, i);
    if let Ok((Some(_), j)) = block_key_at(a, i) {
        lemma_scalar_advances(a, j);
        lemma_scalar_prefix(a, b, j);
        let m = scalar_at(a, j)->Ok_0.1;
        lemma_block_fields_prefix(a, b, m);
    }
}

pub proof fn lemma_entry_prefix(a: Seq<char>, b: Seq<char>, i: int)
    requires
        ends_line(a),
        0 <= i <= a.len(),
        entry_at(a, i) is Ok,
    ensures
        entry_at(a + b, i) == entry_at(a, i),
{
    lemma_token_advances(a, i);
    lemma_token_prefix(a, b, i);
    let j = token_at(a, i)->Ok_0.1;
    match token_at(a, i)->Ok_0.0 {
        TokenView::Assignment => lemma_scalar_prefix(a, b, j),
        TokenView::StartBlock => lemma_block_fields_prefix(a, b, j),
        _ => {},
    }
}

// ----------------------------------------------------------------------------------------
// Decoding
// ----------------------------------------------------------------------------------------

/// Reads one value and the `;` that must follow it.
pub struct ValueDeserializer<'a> {
    pub t: &'a mut Tokenizer,
}

impl<'a> ValueDeserializer<'a> {
    pub fn new(t: &'a mut Tokenizer) -> (r: ValueDeserializer<'a>)
        ensures
            *r.t == *old(t),
            *final(t) == *final(r.t),
    {
        ValueDeserializer { t }
    }

    /// Reads the value and its `;`. A missing `;` is `ExpectedSeperator`.
    pub fn deserialize_any(self) -> (r: Result<Value, Error>)
        ensures
            final(self.t).text() == old(self.t).text(),
            match scalar_at(old(self.t).text(), old(self.t).cursor()) {
                Ok((v, j)) => r matches Ok(x) && x@ == v && final(self.t).cursor() == j,
                Err(e) => r matches Err(x) && x@ == e,
            },
    {
        let value = self.t.next_value()?;
        match self.t.next_token()? {
            Token::Seperator => Ok(value),
            _ => Err(Error::expected_seperator()),
        }
    }
}

/// Reads the assignments of a block, one key and one value at a time.
pub struct BlockAccess<'a>(pub &'a mut Tokenizer);

impl<'a> BlockAccess<'a> {
    /// Reads the next key and the `=` after it, or `None` at the closing `}`.
    pub fn next_key(&mut self) -> (r: Result<Option<String>, Error>)
        ensures
            final(self).0.text() == old(self).0.text(),
            match block_key_at(old(self).0.text(), old(self).0.cursor()) {
                Ok((k, j)) => r matches Ok(x) && key_view(x) == k && final(self).0.cursor() == j,
                Err(e) => r matches Err(x) && x@ == e,
            },
    {
        block_key(self.0)
    }

    /// Reads the value of the last key and the `;` after it.
    pub fn next_value(&mut self) -> (r: Result<Value, Error>)
        ensures
            final(self).0.text() == old(self).0.text(),
            match scalar_at(old(self).0.text(), old(self).0.cursor()) {
                Ok((v, j)) => r matches Ok(x) && x@ == v && final(self).0.cursor() == j,
                Err(e) => r matches Err(x) && x@ == e,
            },
    {
        ValueDeserializer::new(self.0).deserialize_any()
    }
}

fn block_key(t: &mut Tokenizer) -> (r: Result<Option<String>, Error>)
    ensures
        final(t).text() == old(t).text(),
        match block_key_at(old(t).text(), old(t).cursor()) {
            Ok((k, j)) => r matches Ok(x) && key_view(x) == k && final(t).cursor() == j,
            Err(e) => r matches Err(x) && x@ == e,
        },
{
    match t.next_token()? {
        Token::Ident(ident) => {
            match t.next_token()? {
                Token::Assignment => Ok(Some(ident)),
                _ => Err(Error::new(super::de::ErrorKind::ExpectedAssignment)),
            }
        },
        Token::EndBlock => Ok(None),
        _ => Err(Error::new(super::de::ErrorKind::UnexpectedToken)),
    }
}

/// Reads the assignments of a block whose `{` has been read, up to its `}`.
fn read_block(t: &mut Tokenizer) -> (r: Result<Vec<(String, Value)>, Error>)
    requires
        0 <= old(t).cursor() <= old(t).text().len(),
    ensures
        final(t).text() == old(t).text(),
        match block_fields_at(old(t).text(), old(t).cursor()) {
            Ok((fields, j)) => r matches Ok(v) && fields_view(v@) == fields && final(t).cursor()
                == j,
            Err(e) => r matches Err(x) && x@ == e,
        },
{
    let ghost s = t.text();
    let ghost i0 = t.cursor();
    let mut fields: Vec<(String, Value)> = Vec::new();
    assert(fields_view(fields@) + Seq::empty() =~= Seq::empty());
    loop
        invariant
            t.text() == s,
            s == old(t).text(),
            i0 == old(t).cursor(),
            0 <= i0 <= s.len(),
            0 <= t.cursor() <= s.len(),
            block_fields_at(s, i0) == prepend(fields_view(fields@), block_fields_at(s, t.cursor())),
        decreases s.len() - t.cursor(),
    {
        let ghost i = t.cursor();
        proof {
            lemma_block_key_advances(s, i);
        }
        match block_key(t)? {
            None => {
                assert(fields_view(fields@) + Seq::empty() =~= fields_view(fields@));
                return Ok(fields);
            },
            Some(key) => {
                let ghost j = t.cursor();
                proof {
                    lemma_scalar_advances(s, j);
                }
                let value = ValueDeserializer::new(t).deserialize_any()?;
                let ghost before = fields@;
                let ghost kv = (key@, value@);
                fields.push((key, value));
                proof {
                    assert(fields_view(fields@) =~= fields_view(before).push(kv));
                    let m = t.cursor();
                    match block_fields_at(s, m) {
                        Err(e) => {},
                        Ok((rest, p)) => {
                            assert(fields_view(before) + (seq![kv] + rest) =~= fields_view(fields@)
                                + rest);
                        },
                    }
                }
            },
        }
    }
}

/// Reads what a top-level key is assigned: after `=`, one value and its `;`; after `{`, a
/// block. Anything else is `UnexpectedToken`.
pub struct TopLevelDeserializer<'a> {
    pub t: &'a mut Tokenizer,
}

impl<'a> TopLevelDeserializer<'a> {
    pub fn new(t: &'a mut Tokenizer) -> (r: TopLevelDeserializer<'a>)
        ensures
            *r.t == *old(t),
            *final(t) == *final(r.t),
    {
        TopLevelDeserializer { t }
    }

    pub fn deserialize_any(self) -> (r: Result<Entry, Error>)
        ensures
            final(self.t).text() == old(self.t).text(),
            match entry_at(old(self.t).text(), old(self.t).cursor()) {
                Ok((en, j)) => r matches Ok(x) && entry_view(x) == en && final(self.t).cursor()
                    == j,
                Err(e) => r matches Err(x) && x@ == e,
            },
    {
        let ghost s = self.t.text();
        let ghost i = self.t.cursor();
        match self.t.next_token()? {
            Token::Assignment => {
                let value = ValueDeserializer::new(self.t).deserialize_any()?;
                Ok(Entry::Scalar(value))
            },
            Token::StartBlock => {
                proof {
                    lemma_token_advances(s, i);
                }
                let fields = read_block(self.t)?;
                Ok(Entry::Block(fields))
            },
            _ => Err(Error::new(super::de::ErrorKind::UnexpectedToken)),
        }
    }
}

} // verus!
