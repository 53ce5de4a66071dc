//! The bytes of a connection: what has arrived and is not yet read as a
//! frame, and what goes out for a frame.

use crate::encode::encode_spec;
use crate::frame::{check_spec, parse_spec, Cursor, Error, Fault, Frame};
use vstd::prelude::*;
use vstd::slice::{slice_subrange, slice_to_vec};

verus! {

/// What reading from the stream means for the connection.
#[derive(Debug, PartialEq, Eq, Structural)]
pub enum ReadStep {
    /// Bytes arrived: try to read a frame again.
    Retry,
    /// The peer closed the stream between frames.
    Closed,
    /// The peer closed the stream in the middle of a frame.
    Reset,
}

/// The read side of a connection: the bytes received so far that no frame
/// has used up.
#[derive(Debug)]
pub struct Connection {
    buffer: Vec<u8>,
}

impl View for Connection {
    type V = Seq<u8>;

    closed spec fn view(&self) -> Seq<u8> {
        self.buffer@
    }
}

impl Connection {
    /// A connection on which nothing has arrived yet.
    pub fn new() -> (c: Connection)
        ensures
            c@ == Seq::<u8>::empty(),
    {
        Connection { buffer: Vec::with_capacity(4096) }
    }

    /// Takes in what one read from the stream returned. Nothing read means
    /// that the peer has closed the stream: cleanly if no bytes are left
    /// over, in the middle of a frame otherwise.
    pub fn on_read(&mut self, bytes: &[u8]) -> (step: ReadStep)
        ensures
            final(self)@ == old(self)@ + bytes@,
            step == if bytes@.len() > 0 {
                ReadStep::Retry
            } else if old(self)@.len() == 0 {
                ReadStep::Closed
            } else {
                ReadStep::Reset
            },
    {
        if bytes.len() == 0 {
            assert(self@ + bytes@ =~= self@);
            if self.buffer.len() == 0 {
                ReadStep::Closed
            } else {
                ReadStep::Reset
            }
        } else {
            self.buffer.extend_from_slice(bytes);
            ReadStep::Retry
        }
    }

    /// Takes the first frame out of the buffer if a whole one is there.
    ///
    /// With too few bytes for a frame the result is `Ok(None)`; with bytes
    /// that break the grammar it is an error, which never says that bytes
    /// are missing. Either way the buffer stays as it is.
    pub fn parse_frame(&mut self) -> (r: Result<Option<Frame>, Error>)
        ensures
            match check_spec(old(self)@, 0) {
                Ok(len) => match parse_spec(old(self)@, 0) {
                    Ok((f, _)) => r is Ok && r->Ok_0 is Some && r->Ok_0->Some_0@ == f && final(self)@
                        == old(self)@.skip(len),
                    Err(fault) => r is Err && r->Err_0.describes(fault) && final(self)@ == old(self)@,
                },
                Err(Fault::Incomplete) => r is Ok && r->Ok_0 is None && final(self)@ == old(self)@,
                Err(fault) => r is Err && r->Err_0.describes(fault) && final(self)@ == old(self)@,
            },
            r matches Err(e) ==> e is Other,
    {
        let mut buf = Cursor::new(self.buffer.as_slice());
        match Frame::check(&mut buf) {
            Ok(_) => {
                let len: usize = buf.position();
                buf.set_position(0);
                match Frame::parse(&mut buf) {
                    Ok(frame) => {
                        let total: usize = self.buffer.len();
                        let rest = slice_to_vec(slice_subrange(self.buffer.as_slice(), len, total));
                        self.buffer = rest;
                        Ok(Some(frame))
                    },
                    Err(e) => Err(e),
                }
            },
            Err(Error::Incomplete) => Ok(None),
            Err(e) => Err(e),
        }
    }

    /// The bytes to put on the stream for `frame`.
    pub fn write_frame(&self, frame: &Frame) -> (bytes: Vec<u8>)
        ensures
            bytes@ == encode_spec(frame@),
    {
        frame.encode()
    }
}

} // verus!
