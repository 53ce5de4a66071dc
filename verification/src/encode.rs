//! Serialising frames for transmission.

use crate::decimal::{decimal_digits, write_decimal, MINUS, PLUS};
use crate::frame::{
    lemma_array_view, views_of, Frame, FrameView, COLON, CR, DOLLAR, LF, ONE, STAR,
};
use vstd::prelude::*;
use vstd::utf8::encode_utf8;

verus! {

/// The line terminator.
pub open spec fn crlf() -> Seq<u8> {
    seq![CR, LF]
}

/// The bytes that transmit a frame.
pub open spec fn encode_spec(f: FrameView) -> Seq<u8>
    decreases f, 0nat,
{
    match f {
        FrameView::Simple(t) => seq![PLUS] + encode_utf8(t) + crlf(),
        FrameView::Error(t) => seq![MINUS] + encode_utf8(t) + crlf(),
        FrameView::Integer(n) => seq![COLON] + decimal_digits(n as nat) + crlf(),
        FrameView::Null => seq![DOLLAR, MINUS, ONE, CR, LF],
        FrameView::Bulk(b) => seq![DOLLAR] + decimal_digits(b.len()) + crlf() + b + crlf(),
        FrameView::Array(v) => seq![STAR] + decimal_digits(v.len()) + crlf() + encode_upto(
            v,
            v.len(),
        ),
    }
}

/// The encodings of the first `n` frames of `v`, one after the other.
pub open spec fn encode_upto(v: Seq<FrameView>, n: nat) -> Seq<u8>
    decreases v, n,
{
    if n == 0 || n > v.len() {
        Seq::empty()
    } else {
        encode_upto(v, (n - 1) as nat) + encode_spec(v[n - 1])
    }
}

/// Appends the encoding of `frame` to `out`.
pub fn write_value(out: &mut Vec<u8>, frame: &Frame)
    ensures
        final(out)@ == old(out)@ + encode_spec(frame@),
    decreases frame,
{
    match frame {
        Frame::Simple(val) => {
            out.push(PLUS);
            out.extend_from_slice(val.as_str().as_bytes());
            out.push(CR);
            out.push(LF);
            assert(out@ =~= old(out)@ + encode_spec(frame@));
        },
        Frame::Error(val) => {
            out.push(MINUS);
            out.extend_from_slice(val.as_str().as_bytes());
            out.push(CR);
            out.push(LF);
            assert(out@ =~= old(out)@ + encode_spec(frame@));
        },
        Frame::Integer(val) => {
            out.push(COLON);
            write_decimal(out, *val);
            out.push(CR);
            out.push(LF);
            assert(out@ =~= old(out)@ + encode_spec(frame@));
        },
        Frame::Null => {
            out.push(DOLLAR);
            out.push(MINUS);
            out.push(ONE);
            out.push(CR);
            out.push(LF);
            assert(out@ =~= old(out)@ + encode_spec(frame@));
        },
        Frame::Bulk(val) => {
            out.push(DOLLAR);
            write_decimal(out, val.len() as u64);
            out.push(CR);
            out.push(LF);
            out.extend_from_slice(val.as_slice());
            out.push(CR);
            out.push(LF);
            assert(out@ =~= old(out)@ + encode_spec(frame@));
        },
        Frame::Array(val) => {
            out.push(STAR);
            write_decimal(out, val.len() as u64);
            out.push(CR);
            out.push(LF);
            proof {
                lemma_array_view(*val);
            }
            let ghost head = out@;
            let ghost elems = views_of(val@);
            assert(head =~= old(out)@ + (seq![STAR] + decimal_digits(elems.len()) + crlf()));
            let mut i: usize = 0;
            while i < val.len()
                invariant
                    i <= val.len(),
                    elems == views_of(val@),
                    frame == Frame::Array(*val),
                    decreases_to!(frame => val),
                    out@ == head + encode_upto(elems, i as nat),
                decreases val.len() - i,
            {
                proof {
                    vstd::std_specs::vec::axiom_vec_index_decreases(*val, i as int);
                }
                write_value(out, &val[i]);
                i = i + 1;
                assert(out@ =~= head + encode_upto(elems, i as nat));
            }
            assert(out@ =~= old(out)@ + encode_spec(frame@));
        },
    }
}

impl Frame {
    /// The bytes that transmit this frame.
    pub fn encode(&self) -> (bytes: Vec<u8>)
        ensures
            bytes@ == encode_spec(self@),
    {
        let mut out: Vec<u8> = Vec::new();
        write_value(&mut out, self);
        assert(out@ =~= encode_spec(self@));
        out
    }
}

} // verus!
