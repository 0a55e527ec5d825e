//! A cursor over the elements of one request.

use bytes::Bytes;
use vstd::prelude::*;
use vstd::string::*;
use vstd::utf8::*;

use crate::buf::{as_slice, contents, from_vec};
use crate::frame::{lemma_array_view, views, Frame, FrameView};
use crate::text::{decimal, from_utf8, is_keyword, parse_decimal};

verus! {

/// The ways in which a request can break the protocol.
#[derive(Debug, Clone, Copy, PartialEq, Eq)]
pub enum Violation {
    /// The request is not an array.
    NotAnArray,
    /// An element is neither a simple string nor a bulk string.
    WrongKind,
    /// A bulk string that should hold text is not well-formed UTF-8.
    InvalidUtf8,
    /// The request names a command that the server does not have.
    UnknownCommand,
    /// A command was given a modifier that it does not know.
    UnknownModifier,
    /// The request goes on behind the last argument of its command.
    TrailingElement,
}

/// Why reading from a cursor, or parsing a command from it, failed.
#[derive(Debug, Clone, Copy, PartialEq, Eq)]
pub enum ParseError {
    /// No element is left. For an optional argument this only means that
    /// the argument is absent.
    EndOfStream,
    /// An element is there, and is not acceptable.
    Protocol(Violation),
    /// A numeric argument is no count: its text is not a decimal number
    /// that fits, or it is a negative integer.
    NotANumber,
}

/// The text of one element: a simple string as it is, a bulk string decoded
/// as UTF-8.
pub open spec fn text_of(frame: FrameView) -> Result<Seq<char>, ParseError> {
    match frame {
        FrameView::Simple(s) => Ok(s),
        FrameView::Bulk(b) => if valid_utf8(b) {
            Ok(decode_utf8(b))
        } else {
            Err(ParseError::Protocol(Violation::InvalidUtf8))
        },
        _ => Err(ParseError::Protocol(Violation::WrongKind)),
    }
}

/// Whether `frame` is text that reads `keyword`, in any case of letters.
pub open spec fn reads_as(frame: FrameView, keyword: Seq<char>) -> bool {
    text_of(frame) matches Ok(text) && is_keyword(text, keyword)
}

/// The bytes of one element: a bulk string as it is, a simple string encoded
/// as UTF-8.
pub open spec fn bytes_of(frame: FrameView) -> Result<Seq<u8>, ParseError> {
    match frame {
        FrameView::Simple(s) => Ok(encode_utf8(s)),
        FrameView::Bulk(b) => Ok(b),
        _ => Err(ParseError::Protocol(Violation::WrongKind)),
    }
}

/// The count that one element gives: the number written in its text. An
/// integer element, which is how a replayed command carries its number,
/// gives the number it holds, as its decimal text would; a negative number
/// is no count.
pub open spec fn int_of(frame: FrameView) -> Result<u64, ParseError> {
    match frame {
        FrameView::Integer(n) => if 0 <= n <= u64::MAX {
            Ok(n as u64)
        } else {
            Err(ParseError::NotANumber)
        },
        _ => match text_of(frame) {
            Ok(s) => match decimal(s) {
                Some(n) => Ok(n),
                None => Err(ParseError::NotANumber),
            },
            Err(e) => Err(e),
        },
    }
}

/// What reading text from the front of `items` gives.
pub open spec fn first_text(items: Seq<FrameView>) -> Result<Seq<char>, ParseError> {
    if items.len() == 0 {
        Err(ParseError::EndOfStream)
    } else {
        text_of(items[0])
    }
}

/// What reading bytes from the front of `items` gives.
pub open spec fn first_bytes(items: Seq<FrameView>) -> Result<Seq<u8>, ParseError> {
    if items.len() == 0 {
        Err(ParseError::EndOfStream)
    } else {
        bytes_of(items[0])
    }
}

/// What reading a number from the front of `items` gives.
pub open spec fn first_int(items: Seq<FrameView>) -> Result<u64, ParseError> {
    if items.len() == 0 {
        Err(ParseError::EndOfStream)
    } else {
        int_of(items[0])
    }
}

/// What is left of `items` after one read: everything but the first
/// element, which is consumed whether or not it was acceptable.
pub open spec fn rest(items: Seq<FrameView>) -> Seq<FrameView> {
    if items.len() == 0 {
        items
    } else {
        items.skip(1)
    }
}

/// A read fails for want of an element exactly when no element is left, so
/// that the caller can tell an absent argument from a bad one. Reading
/// never brings elements back: a cursor that has run out stays so.
pub proof fn lemma_end_of_stream(items: Seq<FrameView>)
    ensures
        first_text(items) == Err::<Seq<char>, ParseError>(ParseError::EndOfStream) <==> items.len()
            == 0,
        first_bytes(items) == Err::<Seq<u8>, ParseError>(ParseError::EndOfStream) <==> items.len()
            == 0,
        first_int(items) == Err::<u64, ParseError>(ParseError::EndOfStream) <==> items.len() == 0,
        items.len() == 0 ==> rest(items) == items,
        items.len() > 0 ==> rest(items).len() == items.len() - 1,
{
}

/// A forward-only reader over the elements of an array frame.
#[derive(Debug)]
pub struct Parse {
    parts: Vec<Frame>,
    pos: usize,
}

impl Parse {
    #[verifier::type_invariant]
    spec fn in_bounds(self) -> bool {
        self.pos <= self.parts@.len()
    }

    /// The elements that have not been read yet, in order.
    pub closed spec fn remaining(self) -> Seq<FrameView> {
        views(self.parts@).skip(self.pos as int)
    }

    /// A cursor at the first element of `frame`, which must be an array.
    pub fn new(frame: Frame) -> (r: Result<Parse, ParseError>)
        ensures
            match r {
                Ok(parse) => frame@ == FrameView::Array(parse.remaining()),
                Err(e) => !(frame@ is Array) && e == ParseError::Protocol(Violation::NotAnArray),
            },
    {
        match frame {
            Frame::Array(parts) => {
                proof {
                    lemma_array_view(parts);
                    assert(views(parts@).skip(0) =~= views(parts@));
                }
                Ok(Parse { parts, pos: 0 })
            },
            _ => Err(ParseError::Protocol(Violation::NotAnArray)),
        }
    }

    /// Reads the next element as text.
    pub fn next_string(&mut self) -> (r: Result<String, ParseError>)
        ensures
            final(self).remaining() == rest(old(self).remaining()),
            match r {
                Ok(s) => first_text(old(self).remaining()) == Ok::<Seq<char>, ParseError>(s@),
                Err(e) => first_text(old(self).remaining()) == Err::<Seq<char>, ParseError>(e),
            },
    {
        proof {
            use_type_invariant(&*self);
        }
        if self.pos >= self.parts.len() {
            return Err(ParseError::EndOfStream);
        }
        let r = match &self.parts[self.pos] {
            Frame::Simple(s) => Ok(s.clone()),
            Frame::Bulk(b) => match from_utf8(as_slice(b)) {
                Some(s) => {
                    proof {
                        encode_utf8_decode_utf8(s@);
                    }
                    Ok(s.to_owned())
                },
                None => Err(ParseError::Protocol(Violation::InvalidUtf8)),
            },
            _ => Err(ParseError::Protocol(Violation::WrongKind)),
        };
        self.pos = self.pos + 1;
        proof {
            assert(self.remaining() =~= old(self).remaining().skip(1));
        }
        r
    }

    /// Reads the next element as raw bytes, without asking that they be text.
    pub fn next_bytes(&mut self) -> (r: Result<Bytes, ParseError>)
        ensures
            final(self).remaining() == rest(old(self).remaining()),
            match r {
                Ok(b) => first_bytes(old(self).remaining()) == Ok::<Seq<u8>, ParseError>(
                    contents(b),
                ),
                Err(e) => first_bytes(old(self).remaining()) == Err::<Seq<u8>, ParseError>(e),
            },
    {
        proof {
            use_type_invariant(&*self);
        }
        if self.pos >= self.parts.len() {
            return Err(ParseError::EndOfStream);
        }
        let r = match &self.parts[self.pos] {
            Frame::Simple(s) => Ok(from_vec(s.as_str().as_bytes_vec())),
            Frame::Bulk(b) => Ok(b.clone()),
            _ => Err(ParseError::Protocol(Violation::WrongKind)),
        };
        self.pos = self.pos + 1;
        proof {
            assert(self.remaining() =~= old(self).remaining().skip(1));
        }
        r
    }

    /// Reads the next element as a count: its text as a decimal number, or
    /// the number of an integer element.
    pub fn next_int(&mut self) -> (r: Result<u64, ParseError>)
        ensures
            final(self).remaining() == rest(old(self).remaining()),
            r == first_int(old(self).remaining()),
    {
        proof {
            use_type_invariant(&*self);
        }
        if self.pos < self.parts.len() {
            if let Frame::Integer(n) = &self.parts[self.pos] {
                let n = *n;
                self.pos = self.pos + 1;
                proof {
                    assert(self.remaining() =~= old(self).remaining().skip(1));
                }
                return if n >= 0 {
                    Ok(n as u64)
                } else {
                    Err(ParseError::NotANumber)
                };
            }
        }
        match self.next_string() {
            Ok(s) => match parse_decimal(s.as_str()) {
                Some(n) => Ok(n),
                None => Err(ParseError::NotANumber),
            },
            Err(e) => Err(e),
        }
    }

    /// Checks that every element has been read.
    pub fn finish(&self) -> (r: Result<(), ParseError>)
        ensures
            r == if self.remaining().len() == 0 {
                Ok::<(), ParseError>(())
            } else {
                Err::<(), ParseError>(ParseError::Protocol(Violation::TrailingElement))
            },
    {
        proof {
            use_type_invariant(self);
        }
        if self.pos == self.parts.len() {
            Ok(())
        } else {
            Err(ParseError::Protocol(Violation::TrailingElement))
        }
    }
}

} // verus!
