//! Reading the arguments of a command out of an array frame, one by one.

use crate::decimal::{atoi_u64, parse_decimal};
use crate::frame::{string_from_utf8, views_of, Frame, FrameView};
use vstd::prelude::*;
use vstd::slice::slice_to_vec;
use vstd::string::StringExecFns;
use vstd::utf8::{decode_utf8, encode_utf8, valid_utf8};

verus! {

/// Why a command or one of its arguments could not be read.
pub enum ParseFault {
    /// The array has no further element.
    EndOfStream,
    /// This frame is no array.
    ExpectedArray(FrameView),
    /// This element is neither a simple nor a bulk frame.
    ExpectedText(FrameView),
    /// The element is a bulk frame whose bytes are no UTF-8 text.
    InvalidText,
    /// This element is neither an integer, a simple nor a bulk frame.
    ExpectedNumber(FrameView),
    /// The element's text is no number.
    InvalidNumber,
    /// Elements are left over after the last argument.
    TrailingData,
}

/// What the `Debug` form of a frame prints.
pub uninterp spec fn frame_debug(f: FrameView) -> Seq<char>;

/// Formats the frame with `format!` and `{:?}`: the name of its variant and,
/// in brackets, what it holds, text and elements each in their own `Debug`
/// form. The result depends on nothing but what the frame holds.
#[verifier::external_body]
fn debug_frame(frame: &Frame) -> (s: String)
    ensures
        s@ == frame_debug(frame@),
{
    format!("{:?}", frame)
}

/// The message that reports a fault.
pub open spec fn fault_message(f: ParseFault) -> Seq<char> {
    match f {
        ParseFault::EndOfStream => "protocol error; unexpected end of stream"@,
        ParseFault::ExpectedArray(got) => "protocol error; expected array, got "@ + frame_debug(got),
        ParseFault::ExpectedText(got) => "protocol error; expected simple frame or bulk frame, got "@
            + frame_debug(got),
        ParseFault::InvalidText => "protocol error; invalid string"@,
        ParseFault::ExpectedNumber(got) => "protocol error; expected int frame, got "@ + frame_debug(
            got,
        ),
        ParseFault::InvalidNumber => "protocol error; invalid number"@,
        ParseFault::TrailingData => "protocol error; expected end of frame, but there was more"@,
    }
}

/// Failure to read a command or one of its arguments.
#[derive(Clone, Debug, PartialEq, Eq)]
pub enum ParseError {
    /// The frame was fully consumed before the value could be read.
    EndOfStream,
    /// Any other failure, with a message.
    Other(String),
}

impl ParseError {
    /// This error is the one that reports the fault `f`.
    pub open spec fn describes(&self, f: ParseFault) -> bool {
        match f {
            ParseFault::EndOfStream => *self is EndOfStream,
            _ => *self matches ParseError::Other(m) && m@ == fault_message(f),
        }
    }

    /// The message of this error.
    pub fn message(&self) -> (s: String)
        ensures
            self matches ParseError::Other(m) ==> s@ == m@,
            self is EndOfStream ==> s@ == fault_message(ParseFault::EndOfStream),
    {
        match self {
            ParseError::EndOfStream => "protocol error; unexpected end of stream".to_string(),
            ParseError::Other(m) => m.clone(),
        }
    }
}

/// The text that a frame stands for as an argument.
pub open spec fn string_of(f: FrameView) -> Result<Seq<char>, ParseFault> {
    match f {
        FrameView::Simple(s) => Ok(s),
        FrameView::Bulk(b) => if valid_utf8(b) {
            Ok(decode_utf8(b))
        } else {
            Err(ParseFault::InvalidText)
        },
        _ => Err(ParseFault::ExpectedText(f)),
    }
}

/// The bytes that a frame stands for as an argument.
pub open spec fn bytes_of(f: FrameView) -> Result<Seq<u8>, ParseFault> {
    match f {
        FrameView::Simple(s) => Ok(encode_utf8(s)),
        FrameView::Bulk(b) => Ok(b),
        _ => Err(ParseFault::ExpectedText(f)),
    }
}

/// The number that a frame stands for as an argument.
pub open spec fn int_of(f: FrameView) -> Result<u64, ParseFault> {
    match f {
        FrameView::Integer(n) => Ok(n),
        FrameView::Simple(s) => match atoi_u64(encode_utf8(s)) {
            Some(n) => Ok(n),
            None => Err(ParseFault::InvalidNumber),
        },
        FrameView::Bulk(b) => match atoi_u64(b) {
            Some(n) => Ok(n),
            None => Err(ParseFault::InvalidNumber),
        },
        _ => Err(ParseFault::ExpectedNumber(f)),
    }
}

/// A cursor over the elements of an array frame.
#[derive(Debug)]
pub struct Parse {
    parts: Vec<Frame>,
    next: usize,
}

/// The error for a frame that is not what `expected` says.
fn unexpected(expected: &str, frame: &Frame) -> (e: ParseError)
    ensures
        e matches ParseError::Other(m) && m@ == expected@ + frame_debug(frame@),
{
    ParseError::Other(expected.to_string().concat(debug_frame(frame).as_str()))
}

/// The error with the message `msg`.
fn other(msg: &str) -> (e: ParseError)
    ensures
        e matches ParseError::Other(m) && m@ == msg@,
{
    ParseError::Other(msg.to_string())
}

impl Parse {
    /// The elements that have not been read yet.
    pub closed spec fn rest(&self) -> Seq<FrameView> {
        if self.next <= self.parts@.len() {
            views_of(self.parts@).subrange(self.next as int, self.parts@.len() as int)
        } else {
            Seq::empty()
        }
    }

    /// Starts reading the elements of `frame`, which must be an array.
    pub fn new(frame: Frame) -> (r: Result<Parse, ParseError>)
        ensures
            match frame@ {
                FrameView::Array(v) => r is Ok && r->Ok_0.rest() == v,
                _ => r is Err && r->Err_0.describes(ParseFault::ExpectedArray(frame@)),
            },
    {
        match frame {
            Frame::Array(array) => {
                proof {
                    crate::frame::lemma_array_view(array);
                    assert(views_of(array@).subrange(0, array@.len() as int) =~= views_of(array@));
                }
                Ok(Parse { parts: array, next: 0 })
            },
            got => Err(unexpected("protocol error; expected array, got ", &got)),
        }
    }

    /// Whether every element has been read.
    pub fn is_empty(&self) -> (b: bool)
        ensures
            b == (self.rest().len() == 0),
    {
        self.next >= self.parts.len()
    }

    fn step(&mut self)
        requires
            old(self).rest().len() > 0,
        ensures
            final(self).rest() == old(self).rest().drop_first(),
    {
        let len: usize = self.parts.len();
        self.next = self.next + 1;
        assert(self.rest() =~= old(self).rest().drop_first());
    }

    /// The next element as text.
    pub fn next_string(&mut self) -> (r: Result<String, ParseError>)
        ensures
            old(self).rest().len() == 0 ==> r is Err && r->Err_0.describes(ParseFault::EndOfStream)
                && final(self).rest() == old(self).rest(),
            old(self).rest().len() > 0 ==> final(self).rest() == old(self).rest().drop_first() && match string_of(
                old(self).rest()[0],
            ) {
                Ok(t) => r is Ok && r->Ok_0@ == t,
                Err(f) => r is Err && r->Err_0.describes(f),
            },
    {
        if self.is_empty() {
            return Err(ParseError::EndOfStream);
        }
        let r = match &self.parts[self.next] {
            Frame::Simple(s) => Ok(s.clone()),
            Frame::Bulk(data) => match string_from_utf8(slice_to_vec(data.as_slice())) {
                Some(s) => Ok(s),
                None => Err(other("protocol error; invalid string")),
            },
            got => Err(unexpected("protocol error; expected simple frame or bulk frame, got ", got)),
        };
        self.step();
        r
    }

    /// The next element as raw bytes.
    pub fn next_bytes(&mut self) -> (r: Result<Vec<u8>, ParseError>)
        ensures
            old(self).rest().len() == 0 ==> r is Err && r->Err_0.describes(ParseFault::EndOfStream)
                && final(self).rest() == old(self).rest(),
            old(self).rest().len() > 0 ==> final(self).rest() == old(self).rest().drop_first() && match bytes_of(
                old(self).rest()[0],
            ) {
                Ok(b) => r is Ok && r->Ok_0@ == b,
                Err(f) => r is Err && r->Err_0.describes(f),
            },
    {
        if self.is_empty() {
            return Err(ParseError::EndOfStream);
        }
        let r = match &self.parts[self.next] {
            Frame::Simple(s) => Ok(slice_to_vec(s.as_str().as_bytes())),
            Frame::Bulk(data) => Ok(slice_to_vec(data.as_slice())),
            got => Err(unexpected("protocol error; expected simple frame or bulk frame, got ", got)),
        };
        self.step();
        r
    }

    /// The next element as an unsigned number.
    pub fn next_int(&mut self) -> (r: Result<u64, ParseError>)
        ensures
            old(self).rest().len() == 0 ==> r is Err && r->Err_0.describes(ParseFault::EndOfStream)
                && final(self).rest() == old(self).rest(),
            old(self).rest().len() > 0 ==> final(self).rest() == old(self).rest().drop_first() && match int_of(
                old(self).rest()[0],
            ) {
                Ok(n) => r is Ok && r->Ok_0 == n,
                Err(f) => r is Err && r->Err_0.describes(f),
            },
    {
        if self.is_empty() {
            return Err(ParseError::EndOfStream);
        }
        let r = match &self.parts[self.next] {
            Frame::Integer(v) => Ok(*v),
            Frame::Simple(s) => match parse_decimal(s.as_str().as_bytes()) {
                Some(n) => Ok(n),
                None => Err(other("protocol error; invalid number")),
            },
            Frame::Bulk(data) => match parse_decimal(data.as_slice()) {
                Some(n) => Ok(n),
                None => Err(other("protocol error; invalid number")),
            },
            got => Err(unexpected("protocol error; expected int frame, got ", got)),
        };
        self.step();
        r
    }

    /// Succeeds if every element has been read.
    pub fn finish(&mut self) -> (r: Result<(), ParseError>)
        ensures
            final(self).rest() == old(self).rest(),
            old(self).rest().len() == 0 ==> r is Ok,
            old(self).rest().len() > 0 ==> r is Err && r->Err_0.describes(ParseFault::TrailingData),
    {
        if self.is_empty() {
            Ok(())
        } else {
            Err(other("protocol error; expected end of frame, but there was more"))
        }
    }
}

} // verus!
