//! A byte cursor over UTF-8 or ASCII-only UTF-16 input, for date/time grammars.

use vstd::prelude::*;
use vstd::slice::slice_subrange;

verus! {

/// Errors that the cursor reports.
#[derive(Debug, Clone, Copy, PartialEq, Eq)]
pub enum ParseError {
    /// A UTF-16 code unit outside printable ASCII `0x01..0x7F`.
    Utf16NonAsciiChar,
    /// The input ended where a value of the named kind was expected.
    AbruptEnd { location: &'static str },
    /// The input holds more after the end of what was parsed.
    InvalidEnd,
}

/// The result of a parsing step.
pub type ParserResult<T> = Result<T, ParseError>;

/// A borrowed part of the input, in its own encoding.
#[derive(Debug, Clone, PartialEq)]
pub enum Slice<'a> {
    Utf8(&'a [u8]),
    Utf16(&'a [u16]),
}

/// The input of a cursor.
#[derive(Debug)]
pub enum Source<'a> {
    Utf8(&'a [u8]),
    Utf16(&'a [u16]),
}

/// Whether a UTF-16 code unit stands for an ASCII byte that the grammar reads.
pub open spec fn is_ascii_unit(b: u16) -> bool {
    0x01 <= b < 0x7F
}

/// The byte at `index`, `None` past the end, or an error for a UTF-16 unit
/// that is not ASCII.
pub open spec fn source_get(s: Source, index: int) -> ParserResult<Option<u8>> {
    match s {
        Source::Utf8(b) => if 0 <= index < b@.len() {
            Ok(Some(b@[index]))
        } else {
            Ok(None)
        },
        Source::Utf16(u) => if 0 <= index < u@.len() {
            if is_ascii_unit(u@[index]) {
                Ok(Some(u@[index] as u8))
            } else {
                Err(ParseError::Utf16NonAsciiChar)
            }
        } else {
            Ok(None)
        },
    }
}

/// The number of code units in the input.
pub open spec fn source_len(s: Source) -> int {
    match s {
        Source::Utf8(b) => b@.len() as int,
        Source::Utf16(u) => u@.len() as int,
    }
}

impl<'a> Source<'a> {
    pub open spec fn spec_len(&self) -> int {
        source_len(*self)
    }

    /// The code units from `start` to `end`.
    pub fn slice(&self, start: usize, end: usize) -> (r: Option<Slice<'a>>)
        ensures
            r is Some <==> start <= end <= self.spec_len(),
            r matches Some(Slice::Utf8(x)) ==> (*self matches Source::Utf8(b) && x@ == b@.subrange(
                start as int,
                end as int,
            )),
            r matches Some(Slice::Utf16(x)) ==> (*self matches Source::Utf16(u) && x@ == u@.subrange(
                start as int,
                end as int,
            )),
    {
        match self {
            Source::Utf8(s) => {
                if start <= end && end <= s.len() {
                    Some(Slice::Utf8(slice_subrange(s, start, end)))
                } else {
                    None
                }
            },
            Source::Utf16(s) => {
                if start <= end && end <= s.len() {
                    Some(Slice::Utf16(slice_subrange(s, start, end)))
                } else {
                    None
                }
            },
        }
    }

    /// The byte at `index`.
    pub fn get(&self, index: usize) -> (r: ParserResult<Option<u8>>)
        ensures
            r == source_get(*self, index as int),
    {
        match self {
            Source::Utf8(s) => {
                if index < s.len() {
                    Ok(Some(s[index]))
                } else {
                    Ok(None)
                }
            },
            Source::Utf16(s) => {
                if index < s.len() {
                    match to_ascii_byte(s[index]) {
                        Ok(b) => Ok(Some(b)),
                        Err(e) => Err(e),
                    }
                } else {
                    Ok(None)
                }
            },
        }
    }

    /// The number of code units.
    pub fn len(&self) -> (r: usize)
        ensures
            r == self.spec_len(),
    {
        match self {
            Source::Utf8(s) => s.len(),
            Source::Utf16(s) => s.len(),
        }
    }
}

/// The ASCII byte for a UTF-16 code unit in `0x01..0x7F`.
pub fn to_ascii_byte(b: u16) -> (r: ParserResult<u8>)
    ensures
        is_ascii_unit(b) ==> r == Ok::<u8, ParseError>(b as u8),
        !is_ascii_unit(b) ==> r == Err::<u8, ParseError>(ParseError::Utf16NonAsciiChar),
{
    if !(0x01 <= b && b < 0x7F) {
        return Err(ParseError::Utf16NonAsciiChar);
    }
    Ok(b as u8)
}

/// A position in an input for parsing ISO 8601 grammar.
#[derive(Debug)]
pub struct Cursor<'a> {
    pos: usize,
    source: Source<'a>,
}

impl<'a> Cursor<'a> {
    pub closed spec fn spec_pos(&self) -> int {
        self.pos as int
    }

    pub closed spec fn spec_source(&self) -> Source<'a> {
        self.source
    }

    /// The byte at `n` places past the current position.
    pub open spec fn spec_peek_n(&self, n: int) -> ParserResult<Option<u8>> {
        source_get(self.spec_source(), self.spec_pos() + n)
    }

    /// A cursor at the start of UTF-8 input.
    pub fn new(source: &'a [u8]) -> (r: Self)
        ensures
            r.spec_pos() == 0,
            r.spec_source() == Source::Utf8(source),
    {
        Self { pos: 0, source: Source::Utf8(source) }
    }

    /// A cursor at the start of UTF-16 input.
    pub fn from_utf16(source: &'a [u16]) -> (r: Self)
        ensures
            r.spec_pos() == 0,
            r.spec_source() == Source::Utf16(source),
    {
        Self { pos: 0, source: Source::Utf16(source) }
    }

    /// The input from `start` to `end`.
    pub fn slice(&self, start: usize, end: usize) -> (r: Option<Slice<'a>>)
        ensures
            r is Some <==> start <= end <= self.spec_source().spec_len(),
            r matches Some(Slice::Utf8(x)) ==> (self.spec_source() matches Source::Utf8(b)
                && x@ == b@.subrange(start as int, end as int)),
            r matches Some(Slice::Utf16(x)) ==> (self.spec_source() matches Source::Utf16(u)
                && x@ == u@.subrange(start as int, end as int)),
    {
        self.source.slice(start, end)
    }

    /// The current position.
    pub fn pos(&self) -> (r: usize)
        ensures
            r == self.spec_pos(),
    {
        self.pos
    }

    /// The byte after the current one.
    pub fn peek(&self) -> (r: ParserResult<Option<u8>>)
        requires
            self.spec_pos() + 1 <= usize::MAX,
        ensures
            r == self.spec_peek_n(1),
    {
        self.peek_n(1)
    }

    /// The byte at the current position.
    pub fn current(&self) -> (r: ParserResult<Option<u8>>)
        ensures
            r == self.spec_peek_n(0),
    {
        self.peek_n(0)
    }

    /// The byte `n` places past the current position.
    pub fn peek_n(&self, n: usize) -> (r: ParserResult<Option<u8>>)
        requires
            self.spec_pos() + n <= usize::MAX,
        ensures
            r == self.spec_peek_n(n as int),
    {
        self.source.get(self.pos + n)
    }

    /// Applies `f` to the current byte.
    pub fn check<F>(&self, f: F) -> (r: ParserResult<Option<bool>>) where F: FnOnce(u8) -> bool
        requires
            forall|b: u8| f.requires((b,)),
        ensures
            self.spec_peek_n(0) matches Err(e) ==> r == Err::<Option<bool>, ParseError>(e),
            self.spec_peek_n(0) == Ok::<Option<u8>, ParseError>(None) ==> r == Ok::<
                Option<bool>,
                ParseError,
            >(None),
            self.spec_peek_n(0) matches Ok(Some(b)) ==> (r matches Ok(Some(v)) && f.ensures(
                (b,),
                v,
            )),
    {
        match self.current() {
            Ok(Some(b)) => Ok(Some(f(b))),
            Ok(None) => Ok(None),
            Err(e) => Err(e),
        }
    }

    /// Applies `f` to the current byte, or gives `default` at the end of input.
    pub fn check_or<F>(&self, default: bool, f: F) -> (r: ParserResult<bool>) where
        F: FnOnce(u8) -> bool,
        requires
            forall|b: u8| f.requires((b,)),
        ensures
            self.spec_peek_n(0) matches Err(e) ==> r == Err::<bool, ParseError>(e),
            self.spec_peek_n(0) == Ok::<Option<u8>, ParseError>(None) ==> r == Ok::<
                bool,
                ParseError,
            >(default),
            self.spec_peek_n(0) matches Ok(Some(b)) ==> (r matches Ok(v) && f.ensures((b,), v)),
    {
        match self.current() {
            Ok(Some(b)) => Ok(f(b)),
            Ok(None) => Ok(default),
            Err(e) => Err(e),
        }
    }

    /// The current byte; the cursor moves one place on.
    pub fn next(&mut self) -> (r: ParserResult<Option<u8>>)
        requires
            old(self).spec_pos() < usize::MAX,
        ensures
            r == old(self).spec_peek_n(0),
            final(self).spec_pos() == old(self).spec_pos() + 1,
            final(self).spec_source() == old(self).spec_source(),
    {
        let result = self.current();
        self.advance_n(1);
        result
    }

    /// The current byte read as a decimal digit, `None` for another byte; the
    /// cursor moves one place on.
    pub fn next_digit(&mut self) -> (r: ParserResult<Option<u8>>)
        requires
            old(self).spec_pos() < usize::MAX,
        ensures
            final(self).spec_pos() == old(self).spec_pos() + 1,
            final(self).spec_source() == old(self).spec_source(),
            old(self).spec_peek_n(0) matches Err(e) ==> r == Err::<Option<u8>, ParseError>(e),
            old(self).spec_peek_n(0) == Ok::<Option<u8>, ParseError>(None) ==> r == Err::<
                Option<u8>,
                ParseError,
            >(ParseError::AbruptEnd { location: "digit" }),
            old(self).spec_peek_n(0) matches Ok(Some(b)) ==> r == (if 48 <= b <= 57 {
                Ok::<Option<u8>, ParseError>(Some((b - 48) as u8))
            } else {
                Ok::<Option<u8>, ParseError>(None)
            }),
    {
        let ascii_char = match self.next_or(ParseError::AbruptEnd { location: "digit" }) {
            Ok(c) => c,
            Err(e) => return Err(e),
        };
        if 48 <= ascii_char && ascii_char <= 57 {
            Ok(Some(ascii_char - 48))
        } else {
            Ok(None)
        }
    }

    /// The current byte, or `err` at the end of input; the cursor moves one
    /// place on.
    pub fn next_or(&mut self, err: ParseError) -> (r: ParserResult<u8>)
        requires
            old(self).spec_pos() < usize::MAX,
        ensures
            final(self).spec_pos() == old(self).spec_pos() + 1,
            final(self).spec_source() == old(self).spec_source(),
            old(self).spec_peek_n(0) matches Err(e) ==> r == Err::<u8, ParseError>(e),
            old(self).spec_peek_n(0) == Ok::<Option<u8>, ParseError>(None) ==> r == Err::<
                u8,
                ParseError,
            >(err),
            old(self).spec_peek_n(0) matches Ok(Some(b)) ==> r == Ok::<u8, ParseError>(b),
    {
        match self.next() {
            Ok(Some(b)) => Ok(b),
            Ok(None) => Err(err),
            Err(e) => Err(e),
        }
    }

    /// Moves the cursor `n` places on.
    pub fn advance_n(&mut self, n: usize)
        requires
            old(self).spec_pos() + n <= usize::MAX,
        ensures
            final(self).spec_pos() == old(self).spec_pos() + n,
            final(self).spec_source() == old(self).spec_source(),
    {
        self.pos = self.pos + n;
    }

    /// Moves the cursor one place on.
    pub fn advance(&mut self)
        requires
            old(self).spec_pos() < usize::MAX,
        ensures
            final(self).spec_pos() == old(self).spec_pos() + 1,
            final(self).spec_source() == old(self).spec_source(),
    {
        self.advance_n(1)
    }

    /// Moves the cursor one place on when `condition` holds.
    pub fn advance_if(&mut self, condition: bool)
        requires
            old(self).spec_pos() < usize::MAX,
        ensures
            final(self).spec_pos() == old(self).spec_pos() + if condition {
                1int
            } else {
                0int
            },
            final(self).spec_source() == old(self).spec_source(),
    {
        if condition {
            self.advance();
        }
    }

    /// Succeeds when the whole input has been read.
    pub fn close(&mut self) -> (r: ParserResult<()>)
        ensures
            *final(self) == *old(self),
            r is Ok <==> old(self).spec_pos() >= old(self).spec_source().spec_len(),
            r is Err ==> r == Err::<(), ParseError>(ParseError::InvalidEnd),
    {
        if self.pos < self.source.len() {
            return Err(ParseError::InvalidEnd);
        }
        Ok(())
    }
}

} // verus!
