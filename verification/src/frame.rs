//! Protocol frames and the codec that recognises and reads them.

use crate::decimal::{atoi_u64, parse_decimal, MINUS, PLUS};
use crate::display::{decimal_string, numeral};
use vstd::prelude::*;
use vstd::slice::{slice_subrange, slice_to_vec};
use vstd::string::StringExecFns;
use vstd::utf8::{decode_utf8, valid_utf8};

verus! {

pub const CR: u8 = 13;

pub const LF: u8 = 10;

pub const COLON: u8 = 58;

pub const DOLLAR: u8 = 36;

pub const STAR: u8 = 42;

pub const ONE: u8 = 49;

/// A frame of the wire protocol.
#[derive(Debug, PartialEq, Eq)]
pub enum Frame {
    Simple(String),
    Error(String),
    Integer(u64),
    Bulk(Vec<u8>),
    Null,
    Array(Vec<Frame>),
}

/// The mathematical value of a frame.
pub enum FrameView {
    Simple(Seq<char>),
    Error(Seq<char>),
    Integer(u64),
    Bulk(Seq<u8>),
    Null,
    Array(Seq<FrameView>),
}

/// The value of a frame: its text as characters, its payload as bytes and
/// its elements as values in turn.
pub open spec fn frame_view(f: Frame) -> FrameView
    decreases f,
{
    match f {
        Frame::Simple(s) => FrameView::Simple(s@),
        Frame::Error(s) => FrameView::Error(s@),
        Frame::Integer(n) => FrameView::Integer(n),
        Frame::Bulk(b) => FrameView::Bulk(b@),
        Frame::Null => FrameView::Null,
        Frame::Array(v) => FrameView::Array(
            Seq::new(
                v@.len(),
                |i: int|
                    if 0 <= i < v@.len() {
                        frame_view(v@[i])
                    } else {
                        FrameView::Null
                    },
            ),
        ),
    }
}

impl View for Frame {
    type V = FrameView;

    open spec fn view(&self) -> FrameView {
        frame_view(*self)
    }
}

/// Why a buffer does not hold a frame.
pub enum Fault {
    /// More bytes are needed.
    Incomplete,
    /// A length, a count, a number or a text is not what the grammar asks
    /// for.
    BadFormat,
    /// The frame starts with this byte, which stands for no type of frame.
    BadType(u8),
}

/// The message that reports a frame of no known type.
pub open spec fn bad_type_message(b: u8) -> Seq<char> {
    "protocol error; invalid frame type byte `"@ + numeral(b as nat) + "`"@
}

/// Failure to read a frame.
#[derive(Clone, Debug, PartialEq, Eq)]
pub enum Error {
    /// Not enough data is available to read a frame.
    Incomplete,
    /// Invalid encoding, with a message.
    Other(String),
}

impl Error {
    /// This error is the one that reports the fault `f`.
    pub open spec fn describes(&self, f: Fault) -> bool {
        match f {
            Fault::Incomplete => *self is Incomplete,
            Fault::BadFormat => *self matches Error::Other(m) && m@ == "protocol error; invalid frame format"@,
            Fault::BadType(b) => *self matches Error::Other(m) && m@ == bad_type_message(b),
        }
    }

    /// The message of this error.
    pub fn message(&self) -> (s: String)
        ensures
            self matches Error::Other(m) ==> s@ == m@,
            self is Incomplete ==> s@ == "stream ended early"@,
    {
        match self {
            Error::Incomplete => "stream ended early".to_string(),
            Error::Other(m) => m.clone(),
        }
    }
}

/// A read position in a borrowed buffer.
pub struct Cursor<'a> {
    pub buf: &'a [u8],
    pub pos: usize,
}

impl<'a> Cursor<'a> {
    pub fn new(buf: &'a [u8]) -> (c: Self)
        ensures
            c.buf == buf,
            c.pos == 0,
    {
        Cursor { buf, pos: 0 }
    }

    pub fn position(&self) -> (p: usize)
        ensures
            p == self.pos,
    {
        self.pos
    }

    pub fn set_position(&mut self, pos: usize)
        ensures
            final(self).buf == old(self).buf,
            final(self).pos == pos,
    {
        self.pos = pos;
    }

    /// Number of bytes between the position and the end of the buffer.
    pub fn remaining(&self) -> (n: usize)
        ensures
            n == bytes_left(self.buf@, self.pos as int),
    {
        if self.pos <= self.buf.len() {
            self.buf.len() - self.pos
        } else {
            0
        }
    }
}

/// Number of bytes of `s` at and after `pos`.
pub open spec fn bytes_left(s: Seq<u8>, pos: int) -> int {
    if pos <= s.len() {
        s.len() - pos
    } else {
        0
    }
}

/// Index of the first `\r\n` pair in `s` that starts at or after `from`.
pub open spec fn line_end(s: Seq<u8>, from: int) -> Option<int>
    decreases s.len() - from,
{
    if from < 0 || from + 1 >= s.len() {
        None
    } else if s[from] == CR && s[from + 1] == LF {
        Some(from)
    } else {
        line_end(s, from + 1)
    }
}

/// The number on the line that starts at `pos`, and the position after the
/// line's terminator.
pub open spec fn decimal_at(s: Seq<u8>, pos: int) -> Result<(u64, int), Fault> {
    match line_end(s, pos) {
        None => Err(Fault::Incomplete),
        Some(e) => match atoi_u64(s.subrange(pos, e)) {
            Some(n) => Ok((n, e + 2)),
            None => Err(Fault::BadFormat),
        },
    }
}

/// The byte at the cursor, which stays where it is.
pub fn peek_u8(src: &mut Cursor) -> (r: Result<u8, Error>)
    ensures
        *final(src) == *old(src),
        old(src).pos < old(src).buf@.len() ==> r == Ok::<u8, Error>(old(src).buf@[old(src).pos as int]),
        old(src).pos >= old(src).buf@.len() ==> r == Err::<u8, Error>(Error::Incomplete),
{
    if src.pos >= src.buf.len() {
        return Err(Error::Incomplete);
    }
    Ok(src.buf[src.pos])
}

/// The byte at the cursor, which moves past it.
pub fn get_u8(src: &mut Cursor) -> (r: Result<u8, Error>)
    ensures
        final(src).buf == old(src).buf,
        old(src).pos < old(src).buf@.len() ==> r == Ok::<u8, Error>(old(src).buf@[old(src).pos as int])
            && final(src).pos == old(src).pos + 1,
        old(src).pos >= old(src).buf@.len() ==> r == Err::<u8, Error>(Error::Incomplete) && final(src).pos
            == old(src).pos,
{
    if src.pos >= src.buf.len() {
        return Err(Error::Incomplete);
    }
    let b: u8 = src.buf[src.pos];
    src.pos = src.pos + 1;
    Ok(b)
}

/// Moves the cursor `n` bytes on, if that many remain.
pub fn skip(src: &mut Cursor, n: usize) -> (r: Result<(), Error>)
    ensures
        final(src).buf == old(src).buf,
        n <= bytes_left(old(src).buf@, old(src).pos as int) ==> r is Ok && final(src).pos == old(src).pos
            + n,
        n > bytes_left(old(src).buf@, old(src).pos as int) ==> r == Err::<(), Error>(Error::Incomplete)
            && final(src).pos == old(src).pos,
{
    let len: usize = src.buf.len();
    if src.remaining() < n {
        return Err(Error::Incomplete);
    }
    assert(src.pos + n <= len || n == 0);
    src.pos = src.pos + n;
    Ok(())
}

/// The line at the cursor, without its terminator; the cursor moves past
/// the terminator.
pub fn get_line<'a>(src: &mut Cursor<'a>) -> (r: Result<&'a [u8], Error>)
    ensures
        final(src).buf == old(src).buf,
        match line_end(old(src).buf@, old(src).pos as int) {
            Some(e) => r is Ok && r.unwrap()@ == old(src).buf@.subrange(old(src).pos as int, e)
                && final(src).pos == e + 2 && old(src).pos <= e,
            None => r == Err::<&[u8], Error>(Error::Incomplete) && final(src).pos == old(src).pos,
        },
        r is Ok ==> old(src).pos < final(src).pos <= old(src).buf@.len(),
{
    let start: usize = src.pos;
    let buf = src.buf;
    let len: usize = buf.len();
    let mut i: usize = start;
    while i < len && i + 1 < len
        invariant
            *src == *old(src),
            buf == src.buf,
            start == src.pos,
            start <= i,
            len == buf@.len(),
            line_end(buf@, start as int) == line_end(buf@, i as int),
        decreases len - i,
    {
        if buf[i] == CR && buf[i + 1] == LF {
            src.pos = i + 2;
            return Ok(slice_subrange(buf, start, i));
        }
        i = i + 1;
    }
    Err(Error::Incomplete)
}

/// The decimal number on the line at the cursor.
pub fn get_decimal(src: &mut Cursor) -> (r: Result<u64, Error>)
    ensures
        final(src).buf == old(src).buf,
        match decimal_at(old(src).buf@, old(src).pos as int) {
            Ok((n, p)) => r == Ok::<u64, Error>(n) && final(src).pos == p,
            Err(f) => r is Err && r->Err_0.describes(f),
        },
        r is Ok ==> old(src).pos < final(src).pos <= old(src).buf@.len(),
{
    match get_line(src) {
        Err(e) => Err(e),
        Ok(line) => match parse_decimal(line) {
            Some(n) => Ok(n),
            None => Err(invalid_format()),
        },
    }
}

/// Where the null marker ends whose `-1\r\n` starts at `pos`. A byte that
/// differs from the marker is a fault as soon as it is there; bytes that
/// agree with the marker as far as they go are too few.
pub open spec fn null_at(s: Seq<u8>, pos: int) -> Result<int, Fault> {
    if pos < 0 || pos >= s.len() {
        Err(Fault::Incomplete)
    } else if s[pos] != MINUS {
        Err(Fault::BadFormat)
    } else if pos + 1 >= s.len() {
        Err(Fault::Incomplete)
    } else if s[pos + 1] != ONE {
        Err(Fault::BadFormat)
    } else if pos + 2 >= s.len() {
        Err(Fault::Incomplete)
    } else if s[pos + 2] != CR {
        Err(Fault::BadFormat)
    } else if pos + 3 >= s.len() {
        Err(Fault::Incomplete)
    } else if s[pos + 3] != LF {
        Err(Fault::BadFormat)
    } else {
        Ok(pos + 4)
    }
}

/// Where the frame that starts at `pos` ends, as far as its framing shows.
///
/// Only the structure is examined: line terminators, length prefixes,
/// element counts and the null marker. Text is not decoded.
pub open spec fn check_spec(s: Seq<u8>, pos: int) -> Result<int, Fault>
    decreases bytes_left(s, pos), 0nat,
{
    if pos < 0 || pos >= s.len() {
        Err(Fault::Incomplete)
    } else if s[pos] == PLUS || s[pos] == MINUS {
        match line_end(s, pos + 1) {
            Some(e) => Ok(e + 2),
            None => Err(Fault::Incomplete),
        }
    } else if s[pos] == COLON {
        match decimal_at(s, pos + 1) {
            Ok((_, p)) => Ok(p),
            Err(f) => Err(f),
        }
    } else if s[pos] == DOLLAR {
        if pos + 1 >= s.len() {
            Err(Fault::Incomplete)
        } else if s[pos + 1] == MINUS {
            null_at(s, pos + 1)
        } else {
            match decimal_at(s, pos + 1) {
                Err(f) => Err(f),
                Ok((n, p)) => if n > usize::MAX {
                    Err(Fault::BadFormat)
                } else if bytes_left(s, p) < n + 2 {
                    Err(Fault::Incomplete)
                } else {
                    Ok(p + n + 2)
                },
            }
        }
    } else if s[pos] == STAR {
        match decimal_at(s, pos + 1) {
            Err(f) => Err(f),
            Ok((n, p)) => if p > pos {
                check_elems(s, p, n as nat)
            } else {
                Err(Fault::BadFormat)
            },
        }
    } else {
        Err(Fault::BadType(s[pos]))
    }
}

/// Where `n` consecutive frames that start at `pos` end.
pub open spec fn check_elems(s: Seq<u8>, pos: int, n: nat) -> Result<int, Fault>
    decreases bytes_left(s, pos), n + 1,
{
    if n == 0 {
        Ok(pos)
    } else {
        match check_spec(s, pos) {
            Err(f) => Err(f),
            Ok(p) => if p > pos && pos < s.len() {
                check_elems(s, p, (n - 1) as nat)
            } else {
                Err(Fault::BadFormat)
            },
        }
    }
}

/// Puts `pre` in front of the frames of a successful outcome.
pub open spec fn prefixed(pre: Seq<FrameView>, r: Result<(Seq<FrameView>, int), Fault>) -> Result<
    (Seq<FrameView>, int),
    Fault,
> {
    match r {
        Ok((rest, p)) => Ok((pre + rest, p)),
        Err(f) => Err(f),
    }
}

/// The frame that starts at `pos`, and the position after it.
pub open spec fn parse_spec(s: Seq<u8>, pos: int) -> Result<(FrameView, int), Fault>
    decreases bytes_left(s, pos), 0nat,
{
    if pos < 0 || pos >= s.len() {
        Err(Fault::Incomplete)
    } else if s[pos] == PLUS || s[pos] == MINUS {
        match line_end(s, pos + 1) {
            None => Err(Fault::Incomplete),
            Some(e) => {
                let line = s.subrange(pos + 1, e);
                if !valid_utf8(line) {
                    Err(Fault::BadFormat)
                } else if s[pos] == PLUS {
                    Ok((FrameView::Simple(decode_utf8(line)), e + 2))
                } else {
                    Ok((FrameView::Error(decode_utf8(line)), e + 2))
                }
            },
        }
    } else if s[pos] == COLON {
        match decimal_at(s, pos + 1) {
            Ok((n, p)) => Ok((FrameView::Integer(n), p)),
            Err(f) => Err(f),
        }
    } else if s[pos] == DOLLAR {
        if pos + 1 >= s.len() {
            Err(Fault::Incomplete)
        } else if s[pos + 1] == MINUS {
            match null_at(s, pos + 1) {
                Ok(p) => Ok((FrameView::Null, p)),
                Err(f) => Err(f),
            }
        } else {
            match decimal_at(s, pos + 1) {
                Err(f) => Err(f),
                Ok((n, p)) => if n > usize::MAX {
                    Err(Fault::BadFormat)
                } else if bytes_left(s, p) < n + 2 {
                    Err(Fault::Incomplete)
                } else {
                    Ok((FrameView::Bulk(s.subrange(p, p + n)), p + n + 2))
                },
            }
        }
    } else if s[pos] == STAR {
        match decimal_at(s, pos + 1) {
            Err(f) => Err(f),
            Ok((n, p)) => if n > usize::MAX || p <= pos {
                Err(Fault::BadFormat)
            } else {
                as_array(parse_elems(s, p, n as nat))
            },
        }
    } else {
        Err(Fault::BadType(s[pos]))
    }
}

/// The `n` consecutive frames that start at `pos`, and the position after
/// the last of them.
pub open spec fn parse_elems(s: Seq<u8>, pos: int, n: nat) -> Result<(Seq<FrameView>, int), Fault>
    decreases bytes_left(s, pos), n + 1,
{
    if n == 0 {
        Ok((Seq::empty(), pos))
    } else {
        match parse_spec(s, pos) {
            Err(f) => Err(f),
            Ok((f, p)) => if p > pos && pos < s.len() {
                prefixed(seq![f], parse_elems(s, p, (n - 1) as nat))
            } else {
                Err(Fault::BadFormat)
            },
        }
    }
}

/// The outcome for an array whose elements had the outcome `r`.
pub open spec fn as_array(r: Result<(Seq<FrameView>, int), Fault>) -> Result<(FrameView, int), Fault> {
    match r {
        Ok((elems, q)) => Ok((FrameView::Array(elems), q)),
        Err(f) => Err(f),
    }
}

/// The value of an array frame is the array of its elements' values.
pub proof fn lemma_array_view(v: Vec<Frame>)
    ensures
        Frame::Array(v)@ == FrameView::Array(views_of(v@)),
{
    reveal_with_fuel(frame_view, 2);
    let a = Frame::Array(v)@->Array_0;
    assert(a.len() == v@.len());
    assert forall|i: int| 0 <= i < a.len() implies a[i] == views_of(v@)[i] by {
        assert(a[i] == v@[i]@);
    }
    assert(a =~= views_of(v@));
}

/// The values of a sequence of frames.
pub open spec fn views_of(v: Seq<Frame>) -> Seq<FrameView> {
    Seq::new(v.len(), |i: int| v[i]@)
}

/// Calls `String::from_utf8`.
///
/// The contract says that the conversion succeeds exactly on well-formed
/// UTF-8 and that the string then holds the characters those bytes encode.
#[verifier::external_body]
pub(crate) fn string_from_utf8(bytes: Vec<u8>) -> (r: Option<String>)
    ensures
        r is Some <==> valid_utf8(bytes@),
        r matches Some(s) ==> s@ == decode_utf8(bytes@),
{
    match String::from_utf8(bytes) {
        Ok(s) => Some(s),
        Err(_) => None,
    }
}

fn invalid_type(b: u8) -> (e: Error)
    ensures
        e.describes(Fault::BadType(b)),
{
    let text = "protocol error; invalid frame type byte `".to_string().concat(
        decimal_string(b as u64).as_str(),
    ).concat("`");
    Error::Other(text)
}

fn invalid_format() -> (e: Error)
    ensures
        e.describes(Fault::BadFormat),
{
    Error::Other("protocol error; invalid frame format".to_string())
}

/// Moves the cursor over the byte `want`, if it is the next one.
fn expect_u8(src: &mut Cursor, want: u8) -> (r: Result<(), Error>)
    ensures
        final(src).buf == old(src).buf,
        old(src).pos >= old(src).buf@.len() ==> r is Err && r->Err_0.describes(Fault::Incomplete),
        old(src).pos < old(src).buf@.len() && old(src).buf@[old(src).pos as int] != want ==> r is Err
            && r->Err_0.describes(Fault::BadFormat),
        old(src).pos < old(src).buf@.len() && old(src).buf@[old(src).pos as int] == want ==> r is Ok
            && final(src).pos == old(src).pos + 1,
{
    match get_u8(src) {
        Err(e) => Err(e),
        Ok(b) => if b == want {
            Ok(())
        } else {
            Err(invalid_format())
        },
    }
}

/// Moves the cursor over the null marker's `-1\r\n`.
fn null_marker(src: &mut Cursor) -> (r: Result<(), Error>)
    ensures
        final(src).buf == old(src).buf,
        match null_at(old(src).buf@, old(src).pos as int) {
            Ok(p) => r is Ok && final(src).pos == p && p <= old(src).buf@.len(),
            Err(f) => r is Err && r->Err_0.describes(f),
        },
{
    match expect_u8(src, MINUS) {
        Err(e) => { return Err(e); },
        Ok(_) => {},
    }
    match expect_u8(src, ONE) {
        Err(e) => { return Err(e); },
        Ok(_) => {},
    }
    match expect_u8(src, CR) {
        Err(e) => { return Err(e); },
        Ok(_) => {},
    }
    expect_u8(src, LF)
}

/// Reads the frame at the cursor, whatever the buffer holds.
fn read(src: &mut Cursor) -> (r: Result<Frame, Error>)
    ensures
        final(src).buf == old(src).buf,
        match parse_spec(old(src).buf@, old(src).pos as int) {
            Ok((f, p)) => r is Ok && r->Ok_0@ == f && final(src).pos == p && p > old(src).pos,
            Err(f) => r is Err && r->Err_0.describes(f),
        },
        r is Ok ==> final(src).pos <= old(src).buf@.len(),
    decreases bytes_left(old(src).buf@, old(src).pos as int),
{
    let ghost s = src.buf@;
    let ghost origin = src.pos as int;
    let first: u8 = match get_u8(src) {
        Err(e) => { return Err(e); },
        Ok(b) => b,
    };
    if first == PLUS || first == MINUS {
        match get_line(src) {
            Err(e) => Err(e),
            Ok(line) => match string_from_utf8(slice_to_vec(line)) {
                None => Err(invalid_format()),
                Some(text) => if first == PLUS {
                    Ok(Frame::Simple(text))
                } else {
                    Ok(Frame::Error(text))
                },
            },
        }
    } else if first == COLON {
        match get_decimal(src) {
            Err(e) => Err(e),
            Ok(n) => Ok(Frame::Integer(n)),
        }
    } else if first == DOLLAR {
        let next: u8 = match peek_u8(src) {
            Err(e) => { return Err(e); },
            Ok(b) => b,
        };
        if next == MINUS {
            match null_marker(src) {
                Err(e) => Err(e),
                Ok(_) => Ok(Frame::Null),
            }
        } else {
            match get_decimal(src) {
                Err(e) => Err(e),
                Ok(n) => {
                    if n > usize::MAX as u64 {
                        return Err(invalid_format());
                    }
                    let len: usize = n as usize;
                    let total: usize = src.buf.len();
                    if len > usize::MAX - 2 || src.remaining() < len + 2 {
                        return Err(Error::Incomplete);
                    }
                    let data = slice_to_vec(slice_subrange(src.buf, src.pos, src.pos + len));
                    src.pos = src.pos + len + 2;
                    Ok(Frame::Bulk(data))
                },
            }
        }
    } else if first == STAR {
        match get_decimal(src) {
            Err(e) => Err(e),
            Ok(n) => {
                if n > usize::MAX as u64 {
                    return Err(invalid_format());
                }
                let ghost inner = src.pos as int;
                let mut out: Vec<Frame> = Vec::new();
                let mut i: u64 = 0;
                assert(views_of(out@) + parse_elems(s, inner, n as nat)->Ok_0.0 =~= parse_elems(
                    s,
                    inner,
                    n as nat,
                )->Ok_0.0);
                while i < n
                    invariant
                        src.buf == old(src).buf,
                        s == src.buf@,
                        origin == old(src).pos,
                        i <= n,
                        origin < s.len(),
                        src.pos > origin,
                        src.pos <= s.len(),
                        parse_spec(s, origin) == as_array(parse_elems(s, inner, n as nat)),
                        parse_elems(s, inner, n as nat) == prefixed(
                            views_of(out@),
                            parse_elems(s, src.pos as int, (n - i) as nat),
                        ),
                    decreases n - i,
                {
                    let ghost before = views_of(out@);
                    let ghost cur = src.pos as int;
                    match read(src) {
                        Err(e) => { return Err(e); },
                        Ok(f) => {
                            proof {
                                let rest = parse_elems(s, src.pos as int, (n - i - 1) as nat);
                                assert(views_of(out@.push(f)) =~= before + seq![f@]);
                                if rest is Ok {
                                    assert((before + seq![f@]) + rest->Ok_0.0 =~= before + (seq![f@]
                                        + rest->Ok_0.0));
                                }
                            }
                            out.push(f);
                        },
                    }
                    i = i + 1;
                }
                proof {
                    assert(views_of(out@) + Seq::<FrameView>::empty() =~= views_of(out@));
                    lemma_array_view(out);
                }
                Ok(Frame::Array(out))
            },
        }
    } else {
        Err(invalid_type(first))
    }
}

impl Clone for Frame {
    fn clone(&self) -> (copy: Self)
        ensures
            copy@ == self@,
    {
        duplicate(self)
    }
}

/// Whether two slices hold the same bytes.
pub fn same_bytes(a: &[u8], b: &[u8]) -> (r: bool)
    ensures
        r == (a@ == b@),
{
    if a.len() != b.len() {
        return false;
    }
    let mut i: usize = 0;
    while i < a.len()
        invariant
            a@.len() == b@.len(),
            i <= a@.len(),
            forall|j: int| 0 <= j < i ==> a@[j] == b@[j],
        decreases a.len() - i,
    {
        if a[i] != b[i] {
            return false;
        }
        i = i + 1;
    }
    assert(a@ =~= b@);
    true
}

/// A copy of `frame`.
pub fn duplicate(frame: &Frame) -> (copy: Frame)
    ensures
        copy@ == frame@,
    decreases frame,
{
    match frame {
        Frame::Simple(s) => Frame::Simple(s.clone()),
        Frame::Error(s) => Frame::Error(s.clone()),
        Frame::Integer(n) => Frame::Integer(*n),
        Frame::Bulk(b) => Frame::Bulk(slice_to_vec(b.as_slice())),
        Frame::Null => Frame::Null,
        Frame::Array(parts) => {
            let mut out: Vec<Frame> = Vec::new();
            let mut i: usize = 0;
            while i < parts.len()
                invariant
                    i <= parts.len(),
                    decreases_to!(frame => parts),
                    views_of(out@) == views_of(parts@).take(i as int),
                decreases parts.len() - i,
            {
                proof {
                    vstd::std_specs::vec::axiom_vec_index_decreases(*parts, i as int);
                }
                let ghost prev = out@;
                let part = duplicate(&parts[i]);
                out.push(part);
                assert(out@ =~= prev.push(part));
                assert(views_of(out@) =~= views_of(prev).push(part@));
                i = i + 1;
                assert(views_of(parts@).take(i as int) =~= views_of(parts@).take(i - 1).push(
                    parts@[i - 1]@,
                ));
            }
            proof {
                assert(views_of(parts@).take(i as int) =~= views_of(parts@));
                lemma_array_view(out);
                lemma_array_view(*parts);
            }
            Frame::Array(out)
        },
    }
}

impl Frame {
    /// Whether this frame is a simple frame with the text `other` or a bulk
    /// frame with the bytes of `other`.
    pub fn eq_str(&self, other: &str) -> (r: bool)
        ensures
            r == match self@ {
                FrameView::Simple(s) => s == other@,
                FrameView::Bulk(b) => b == vstd::utf8::encode_utf8(other@),
                _ => false,
            },
    {
        match self {
            Frame::Simple(s) => {
                proof {
                    vstd::utf8::encode_utf8_decode_utf8(s@);
                    vstd::utf8::encode_utf8_decode_utf8(other@);
                }
                same_bytes(s.as_str().as_bytes(), other.as_bytes())
            },
            Frame::Bulk(s) => same_bytes(s.as_slice(), other.as_bytes()),
            _ => false,
        }
    }

    /// An array frame without elements.
    pub fn array() -> (f: Frame)
        ensures
            f@ == FrameView::Array(Seq::empty()),
    {
        let v: Vec<Frame> = Vec::new();
        proof {
            lemma_array_view(v);
            assert(views_of(v@) =~= Seq::<FrameView>::empty());
        }
        Frame::Array(v)
    }

    /// Appends a bulk frame that holds `bytes` to this array frame.
    pub fn push_bulk(&mut self, bytes: Vec<u8>)
        requires
            old(self)@ is Array,
        ensures
            final(self)@ == FrameView::Array(old(self)@->Array_0.push(FrameView::Bulk(bytes@))),
    {
        self.push_frame(Frame::Bulk(bytes));
    }

    /// Appends an integer frame that holds `value` to this array frame.
    pub fn push_int(&mut self, value: u64)
        requires
            old(self)@ is Array,
        ensures
            final(self)@ == FrameView::Array(old(self)@->Array_0.push(FrameView::Integer(value))),
    {
        self.push_frame(Frame::Integer(value));
    }

    fn push_frame(&mut self, frame: Frame)
        requires
            old(self)@ is Array,
        ensures
            final(self)@ == FrameView::Array(old(self)@->Array_0.push(frame@)),
    {
        match self {
            Frame::Array(vec) => {
                proof {
                    lemma_array_view(*vec);
                    assert(views_of(vec@.push(frame)) =~= views_of(vec@).push(frame@));
                }
                vec.push(frame);
                proof {
                    lemma_array_view(*vec);
                }
            },
            _ => {},
        }
    }

    /// Tells whether the buffer holds a whole frame at the cursor, and moves
    /// the cursor to the end of that frame if it does.
    pub fn check(src: &mut Cursor) -> (r: Result<(), Error>)
        ensures
            final(src).buf == old(src).buf,
            match check_spec(old(src).buf@, old(src).pos as int) {
                Ok(p) => r is Ok && final(src).pos == p && p > old(src).pos,
                Err(f) => r is Err && r->Err_0.describes(f),
            },
            r is Ok ==> final(src).pos <= old(src).buf@.len(),
        decreases bytes_left(old(src).buf@, old(src).pos as int),
    {
        let ghost s = src.buf@;
        let ghost origin = src.pos as int;
        let first: u8 = match get_u8(src) {
            Err(e) => { return Err(e); },
            Ok(b) => b,
        };
        if first == PLUS || first == MINUS {
            match get_line(src) {
                Err(e) => Err(e),
                Ok(_) => Ok(()),
            }
        } else if first == COLON {
            match get_decimal(src) {
                Err(e) => Err(e),
                Ok(_) => Ok(()),
            }
        } else if first == DOLLAR {
            let next: u8 = match peek_u8(src) {
                Err(e) => { return Err(e); },
                Ok(b) => b,
            };
            if next == MINUS {
                null_marker(src)
            } else {
                match get_decimal(src) {
                    Err(e) => Err(e),
                    Ok(n) => {
                        if n > usize::MAX as u64 {
                            return Err(invalid_format());
                        }
                        let len: usize = n as usize;
                        if len > usize::MAX - 2 {
                            let total: usize = src.buf.len();
                            return Err(Error::Incomplete);
                        }
                        skip(src, len + 2)
                    },
                }
            }
        } else if first == STAR {
            match get_decimal(src) {
                Err(e) => Err(e),
                Ok(n) => {
                    let ghost inner = src.pos as int;
                    let mut i: u64 = 0;
                    while i < n
                        invariant
                            src.buf == old(src).buf,
                            s == src.buf@,
                            origin == old(src).pos,
                            i <= n,
                            origin < s.len(),
                            src.pos > origin,
                            src.pos <= s.len(),
                            src.pos >= inner,
                            check_spec(s, origin) == check_elems(s, inner, n as nat),
                            check_elems(s, inner, n as nat) == check_elems(
                                s,
                                src.pos as int,
                                (n - i) as nat,
                            ),
                        decreases n - i,
                    {
                        match Frame::check(src) {
                            Err(e) => { return Err(e); },
                            Ok(_) => {},
                        }
                        i = i + 1;
                    }
                    Ok(())
                },
            }
        } else {
            Err(invalid_type(first))
        }
    }

    /// Reads the frame at the cursor of a buffer that `check` has accepted
    /// at that position. The frame ends where the check stopped; what is
    /// not read is malformed, never too short.
    pub fn parse(src: &mut Cursor) -> (r: Result<Frame, Error>)
        requires
            check_spec(old(src).buf@, old(src).pos as int) is Ok,
        ensures
            final(src).buf == old(src).buf,
            match parse_spec(old(src).buf@, old(src).pos as int) {
                Ok((f, p)) => r is Ok && r->Ok_0@ == f && final(src).pos == p && p > old(src).pos,
                Err(f) => r is Err && r->Err_0.describes(f),
            },
            r is Ok ==> final(src).pos <= old(src).buf@.len(),
            r is Ok ==> final(src).pos == check_spec(old(src).buf@, old(src).pos as int)->Ok_0,
            r matches Err(e) ==> e is Other,
    {
        proof {
            crate::roundtrip::parse_follows_check(src.buf@, src.pos as int);
        }
        read(src)
    }
}

} // verus!
