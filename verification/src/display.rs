//! Frames as text for people to read.

use crate::decimal::{decimal_digits, lemma_decimal_digits_shape, write_decimal};
use crate::frame::{lemma_array_view, string_from_utf8, views_of, Frame, FrameView};
use vstd::prelude::*;
use vstd::slice::slice_to_vec;
use vstd::string::StringExecFns;
use vstd::utf8::{
    decode_utf8, encode_utf8, encode_utf8_decode_utf8, encode_utf8_valid_utf8, is_ascii_chars,
    is_ascii_chars_encode_utf8, valid_utf8,
};

verus! {

/// What the `Debug` form of `bytes::Bytes` prints for the bytes `b`.
pub uninterp spec fn bytes_debug(b: Seq<u8>) -> Seq<char>;

/// Formats the bytes as `bytes::Bytes` does for `Debug`: between `b"` and
/// `"`, printable ASCII as it is but for the backslash and the double
/// quote, which get a backslash in front; `\n`, `\r`, `\t` and `\0` for
/// those four bytes; and `\x` with two hex digits for every other byte.
#[verifier::external_body]
fn debug_bytes(b: &[u8]) -> (s: String)
    ensures
        s@ == bytes_debug(b@),
{
    format!("{:?}", bytes::Bytes::copy_from_slice(b))
}

/// The decimal numeral of `n` as text.
pub open spec fn numeral(n: nat) -> Seq<char> {
    Seq::new(decimal_digits(n).len(), |i: int| decimal_digits(n)[i] as char)
}

/// The text by which a frame is shown.
pub open spec fn display_spec(f: FrameView) -> Seq<char>
    decreases f, 0nat,
{
    match f {
        FrameView::Simple(r) => r,
        FrameView::Error(msg) => "error: "@ + msg,
        FrameView::Integer(n) => numeral(n as nat),
        FrameView::Bulk(b) => if valid_utf8(b) {
            decode_utf8(b)
        } else {
            bytes_debug(b)
        },
        FrameView::Null => "(nil)"@,
        FrameView::Array(parts) => display_tail(parts, parts.len()),
    }
}

/// The elements of `parts` after the first and before index `n`, each with
/// a space in front of it.
pub open spec fn display_tail(parts: Seq<FrameView>, n: nat) -> Seq<char>
    decreases parts, n,
{
    if n <= 1 || n > parts.len() {
        Seq::empty()
    } else {
        display_tail(parts, (n - 1) as nat) + " "@ + display_spec(parts[n - 1])
    }
}

/// The decimal numeral of `n` as a string.
pub fn decimal_string(n: u64) -> (s: String)
    ensures
        s@ == numeral(n as nat),
{
    let mut digits: Vec<u8> = Vec::new();
    write_decimal(&mut digits, n);
    proof {
        let chars = numeral(n as nat);
        lemma_decimal_digits_shape(n as nat);
        assert(digits@ =~= decimal_digits(n as nat));
        assert(is_ascii_chars(chars)) by {
            assert forall|i: int| 0 <= i < chars.len() implies '\0' <= #[trigger] chars[i] <= '\u{7f}' by {
                assert(crate::decimal::is_digit(decimal_digits(n as nat)[i]));
            }
        }
        is_ascii_chars_encode_utf8(chars);
        assert(encode_utf8(chars) =~= digits@) by {
            assert forall|i: int| 0 <= i < chars.len() implies encode_utf8(chars)[i] == digits@[i] by {
                assert(chars[i] as u8 == encode_utf8(chars)[i]);
                assert(crate::decimal::is_digit(decimal_digits(n as nat)[i]));
            }
        }
        encode_utf8_valid_utf8(chars);
        encode_utf8_decode_utf8(chars);
    }
    match string_from_utf8(digits) {
        Some(s) => s,
        None => String::new(),
    }
}

impl Frame {
    /// The text by which this frame is shown.
    pub fn to_text(&self) -> (s: String)
        ensures
            s@ == display_spec(self@),
        decreases self,
    {
        match self {
            Frame::Simple(r) => r.clone(),
            Frame::Error(msg) => "error: ".to_string().concat(msg.as_str()),
            Frame::Integer(num) => decimal_string(*num),
            Frame::Bulk(msg) => match string_from_utf8(slice_to_vec(msg.as_slice())) {
                Some(s) => s,
                None => debug_bytes(msg.as_slice()),
            },
            Frame::Null => "(nil)".to_string(),
            Frame::Array(parts) => {
                proof {
                    lemma_array_view(*parts);
                }
                let ghost elems = views_of(parts@);
                let mut out = String::new();
                let mut i: usize = 1;
                assert(out@ =~= display_tail(elems, 1));
                while i < parts.len()
                    invariant
                        1 <= i,
                        i <= parts.len() || i == 1,
                        elems == views_of(parts@),
                        decreases_to!(self => parts),
                        i <= parts.len() ==> out@ == display_tail(elems, i as nat),
                        i > parts.len() ==> out@ == Seq::<char>::empty(),
                    decreases parts.len() - i,
                {
                    proof {
                        vstd::std_specs::vec::axiom_vec_index_decreases(*parts, i as int);
                    }
                    let part = parts[i].to_text();
                    out = out.concat(" ").concat(part.as_str());
                    i = i + 1;
                }
                proof {
                    assert(elems.len() == parts@.len());
                    if parts@.len() == 0 {
                        assert(display_tail(elems, 0) =~= Seq::<char>::empty());
                    } else {
                        assert(i == parts@.len());
                    }
                }
                out
            },
        }
    }

    /// The message of the error that reports this frame as unexpected.
    pub fn to_error(&self) -> (s: String)
        ensures
            s@ == "unexpected frame: "@ + display_spec(self@),
    {
        let text = self.to_text();
        "unexpected frame: ".to_string().concat(text.as_str())
    }
}

} // verus!
