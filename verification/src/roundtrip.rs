//! Laws that tie the encoder to the reader: what is written is read back
//! unchanged, and nothing shorter is mistaken for a whole frame.

use crate::decimal::{
    all_digits, atoi_u64, decimal_digits, digit_run, digits_value, is_digit,
    lemma_decimal_digits_shape, MINUS, PLUS,
};
use crate::encode::{crlf, encode_spec, encode_upto};
use crate::frame::{
    bytes_left, check_elems, check_spec, decimal_at, line_end, parse_elems, parse_spec, Fault,
    FrameView, COLON,
    CR, DOLLAR, LF, ONE, STAR,
};
use vstd::prelude::*;
use vstd::utf8::{encode_utf8, encode_utf8_decode_utf8, encode_utf8_valid_utf8};

verus! {

/// A line terminator starts at index `j` of `s`.
pub open spec fn crlf_at(s: Seq<u8>, j: int) -> bool {
    0 <= j && j + 1 < s.len() && s[j] == CR && s[j + 1] == LF
}

/// `b` holds no line terminator.
pub open spec fn no_crlf(b: Seq<u8>) -> bool {
    forall|j: int| !#[trigger] crlf_at(b, j)
}

/// Frames that the wire format can carry faithfully: text without a line
/// terminator inside, and lengths and counts that a length prefix can
/// express on this machine.
pub open spec fn transmissible(f: FrameView) -> bool
    decreases f,
{
    match f {
        FrameView::Simple(t) => no_crlf(encode_utf8(t)),
        FrameView::Error(t) => no_crlf(encode_utf8(t)),
        FrameView::Integer(_) => true,
        FrameView::Null => true,
        FrameView::Bulk(b) => b.len() <= usize::MAX,
        FrameView::Array(v) => v.len() <= usize::MAX && forall|i: int|
            0 <= i < v.len() ==> transmissible(#[trigger] v[i]),
    }
}

/// From `pos` on, `s` reads like `e` for as long as both last.
pub open spec fn agrees(s: Seq<u8>, pos: int, e: Seq<u8>) -> bool {
    0 <= pos && forall|k: int| 0 <= k < e.len() && pos + k < s.len() ==> s[pos + k] == #[trigger] e[k]
}

proof fn lemma_agrees_split(s: Seq<u8>, pos: int, a: Seq<u8>, b: Seq<u8>)
    requires
        agrees(s, pos, a + b),
    ensures
        agrees(s, pos, a),
        agrees(s, pos + a.len(), b),
{
    assert forall|k: int| 0 <= k < a.len() && pos + k < s.len() implies s[pos + k] == #[trigger] a[k] by {
        assert((a + b)[k] == a[k]);
    }
    assert forall|k: int| 0 <= k < b.len() && pos + a.len() + k < s.len() implies s[pos + a.len() + k]
        == #[trigger] b[k] by {
        assert((a + b)[a.len() + k] == b[k]);
    }
}

proof fn lemma_line_end_found(s: Seq<u8>, from: int, e: int)
    requires
        0 <= from <= e,
        crlf_at(s, e),
        forall|j: int| from <= j < e ==> !crlf_at(s, j),
    ensures
        line_end(s, from) == Some(e),
    decreases e - from,
{
    if from < e {
        assert(!crlf_at(s, from));
        lemma_line_end_found(s, from + 1, e);
    }
}

proof fn lemma_line_end_none(s: Seq<u8>, from: int)
    requires
        0 <= from,
        forall|j: int| from <= j ==> !crlf_at(s, j),
    ensures
        line_end(s, from) is None,
    decreases s.len() - from,
{
    if from + 1 < s.len() {
        assert(!crlf_at(s, from));
        lemma_line_end_none(s, from + 1);
    }
}

proof fn lemma_line_whole(s: Seq<u8>, pos: int, body: Seq<u8>)
    requires
        agrees(s, pos, body + crlf()),
        pos + body.len() + 2 <= s.len(),
        no_crlf(body),
    ensures
        line_end(s, pos) == Some(pos + body.len()),
        s.subrange(pos, pos + body.len()) == body,
{
    let e = pos + body.len();
    let full = body + crlf();
    assert(full[body.len() as int] == CR);
    assert(full[body.len() as int + 1] == LF);
    assert(crlf_at(s, e));
    assert forall|j: int| pos <= j < e implies !crlf_at(s, j) by {
        let k = j - pos;
        assert(full[k] == body[k]);
        if k + 1 < body.len() {
            assert(full[k + 1] == body[k + 1]);
            assert(!crlf_at(body, k));
        } else {
            assert(full[k + 1] == CR);
        }
    }
    lemma_line_end_found(s, pos, e);
    assert forall|k: int| 0 <= k < body.len() implies s.subrange(pos, e)[k] == body[k] by {
        assert(full[k] == body[k]);
    }
    assert(s.subrange(pos, e) =~= body);
}

proof fn lemma_line_cut(s: Seq<u8>, pos: int, body: Seq<u8>)
    requires
        agrees(s, pos, body + crlf()),
        s.len() < pos + body.len() + 2,
        no_crlf(body),
    ensures
        line_end(s, pos) is None,
{
    let full = body + crlf();
    assert forall|j: int| pos <= j implies !crlf_at(s, j) by {
        if j + 1 < s.len() {
            let k = j - pos;
            assert(full[k] == body[k]);
            if k + 1 < body.len() {
                assert(full[k + 1] == body[k + 1]);
                assert(!crlf_at(body, k));
            } else {
                assert(full[k + 1] == CR);
            }
        }
    }
    lemma_line_end_none(s, pos);
}

proof fn lemma_digit_run_all(s: Seq<u8>, from: int)
    requires
        all_digits(s),
        0 <= from <= s.len(),
    ensures
        digit_run(s, from) == s.len() - from,
    decreases s.len() - from,
{
    if from < s.len() {
        lemma_digit_run_all(s, from + 1);
    }
}

proof fn lemma_digits_value_same(a: Seq<u8>, b: Seq<u8>, hi: int)
    requires
        0 <= hi <= a.len(),
        hi <= b.len(),
        forall|i: int| 0 <= i < hi ==> a[i] == b[i],
    ensures
        digits_value(a, 0, hi) == digits_value(b, 0, hi),
    decreases hi,
{
    if hi > 0 {
        lemma_digits_value_same(a, b, hi - 1);
    }
}

proof fn lemma_digits_value_decimal(n: nat)
    ensures
        digits_value(decimal_digits(n), 0, decimal_digits(n).len() as int) == n,
    decreases n,
{
    let d = decimal_digits(n);
    if n < 10 {
        assert(d.len() == 1);
        assert(digits_value(d, 0, 0) == 0);
        assert(digits_value(d, 0, 1) == digits_value(d, 0, 0) * 10 + (d[0] - 48) as nat);
    } else {
        let shorter = decimal_digits(n / 10);
        lemma_digits_value_decimal(n / 10);
        lemma_decimal_digits_shape(n / 10);
        assert(d.len() == shorter.len() + 1);
        lemma_digits_value_same(d, shorter, shorter.len() as int);
        assert(d[d.len() - 1] == (48 + n % 10) as u8);
        assert(digits_value(d, 0, d.len() as int) == digits_value(d, 0, d.len() - 1) * 10 + (d[d.len()
            - 1] - 48) as nat);
    }
}

/// A numeral denotes the number it was written for.
pub proof fn lemma_atoi_decimal(n: nat)
    requires
        n <= u64::MAX,
    ensures
        atoi_u64(decimal_digits(n)) == Some(n as u64),
{
    let d = decimal_digits(n);
    lemma_decimal_digits_shape(n);
    lemma_digit_run_all(d, 0);
    lemma_digits_value_decimal(n);
    assert(is_digit(d[0]));
}

proof fn lemma_digits_no_crlf(n: nat)
    ensures
        no_crlf(decimal_digits(n)),
{
    lemma_decimal_digits_shape(n);
    let d = decimal_digits(n);
    assert forall|j: int| !#[trigger] crlf_at(d, j) by {
        if 0 <= j && j + 1 < d.len() {
            assert(is_digit(d[j]));
        }
    }
}

proof fn lemma_decimal_whole(s: Seq<u8>, pos: int, n: nat)
    requires
        n <= u64::MAX,
        agrees(s, pos, decimal_digits(n) + crlf()),
        pos + decimal_digits(n).len() + 2 <= s.len(),
    ensures
        decimal_at(s, pos) == Ok::<(u64, int), Fault>((n as u64, pos + decimal_digits(n).len() + 2)),
{
    lemma_digits_no_crlf(n);
    lemma_line_whole(s, pos, decimal_digits(n));
    lemma_atoi_decimal(n);
}

proof fn lemma_decimal_cut(s: Seq<u8>, pos: int, n: nat)
    requires
        agrees(s, pos, decimal_digits(n) + crlf()),
        s.len() < pos + decimal_digits(n).len() + 2,
    ensures
        decimal_at(s, pos) == Err::<(u64, int), Fault>(Fault::Incomplete),
{
    lemma_digits_no_crlf(n);
    lemma_line_cut(s, pos, decimal_digits(n));
}

proof fn lemma_agrees_prefix(s: Seq<u8>, pos: int, a: Seq<u8>, b: Seq<u8>)
    requires
        agrees(s, pos, b),
        a.len() <= b.len(),
        forall|k: int| 0 <= k < a.len() ==> b[k] == a[k],
    ensures
        agrees(s, pos, a),
{
    assert forall|k: int| 0 <= k < a.len() && pos + k < s.len() implies s[pos + k] == #[trigger] a[k] by {
        assert(b[k] == a[k]);
    }
}

proof fn lemma_upto_prefix(v: Seq<FrameView>, j: nat, n: nat)
    requires
        j <= n <= v.len(),
    ensures
        encode_upto(v, j).len() <= encode_upto(v, n).len(),
        forall|k: int| 0 <= k < encode_upto(v, j).len() ==> encode_upto(v, n)[k] == encode_upto(v, j)[k],
    decreases n - j,
{
    if j < n {
        lemma_upto_prefix(v, j, (n - 1) as nat);
    }
}

/// Every encoding has at least its type byte.
pub proof fn lemma_encode_nonempty(f: FrameView)
    ensures
        encode_spec(f).len() >= 1,
{
}

/// The element that follows the first `j` of `v` is where it should be.
proof fn lemma_element_agrees(s: Seq<u8>, pos: int, v: Seq<FrameView>, j: nat)
    requires
        j < v.len(),
        agrees(s, pos, encode_upto(v, v.len())),
    ensures
        agrees(s, pos + encode_upto(v, j).len(), encode_spec(v[j as int])),
        encode_upto(v, j + 1) == encode_upto(v, j) + encode_spec(v[j as int]),
        encode_upto(v, j + 1).len() <= encode_upto(v, v.len()).len(),
{
    lemma_upto_prefix(v, j + 1, v.len());
    lemma_agrees_prefix(s, pos, encode_upto(v, j + 1), encode_upto(v, v.len()));
    lemma_agrees_split(s, pos, encode_upto(v, j), encode_spec(v[j as int]));
}

proof fn lemma_frame_at(s: Seq<u8>, pos: int, f: FrameView)
    requires
        transmissible(f),
        agrees(s, pos, encode_spec(f)),
        pos + encode_spec(f).len() <= s.len(),
    ensures
        parse_spec(s, pos) == Ok::<(FrameView, int), Fault>((f, pos + encode_spec(f).len())),
        check_spec(s, pos) == Ok::<int, Fault>(pos + encode_spec(f).len()),
    decreases f, 0nat,
{
    let enc = encode_spec(f);
    match f {
        FrameView::Simple(t) => {
            let body = encode_utf8(t);
            assert(enc =~= seq![PLUS] + (body + crlf()));
            lemma_agrees_split(s, pos, seq![PLUS], body + crlf());
            assert(enc[0] == PLUS);
            lemma_line_whole(s, pos + 1, body);
            encode_utf8_valid_utf8(t);
            encode_utf8_decode_utf8(t);
        },
        FrameView::Error(t) => {
            let body = encode_utf8(t);
            assert(enc =~= seq![MINUS] + (body + crlf()));
            lemma_agrees_split(s, pos, seq![MINUS], body + crlf());
            assert(enc[0] == MINUS);
            lemma_line_whole(s, pos + 1, body);
            encode_utf8_valid_utf8(t);
            encode_utf8_decode_utf8(t);
        },
        FrameView::Integer(n) => {
            let dd = decimal_digits(n as nat);
            assert(enc =~= seq![COLON] + (dd + crlf()));
            lemma_agrees_split(s, pos, seq![COLON], dd + crlf());
            assert(enc[0] == COLON);
            lemma_decimal_whole(s, pos + 1, n as nat);
        },
        FrameView::Null => {
            assert(enc[0] == DOLLAR);
            assert(enc[1] == MINUS);
            assert(enc[2] == ONE);
            assert(enc[3] == CR);
            assert(enc[4] == LF);
        },
        FrameView::Bulk(b) => {
            let dd = decimal_digits(b.len());
            assert(enc =~= seq![DOLLAR] + ((dd + crlf()) + (b + crlf())));
            lemma_agrees_split(s, pos, seq![DOLLAR], (dd + crlf()) + (b + crlf()));
            lemma_agrees_split(s, pos + 1, dd + crlf(), b + crlf());
            lemma_agrees_split(s, pos + 1 + dd.len() + 2, b, crlf());
            assert(enc[0] == DOLLAR);
            lemma_decimal_digits_shape(b.len());
            assert(((dd + crlf()) + (b + crlf()))[0] == dd[0]);
            assert(is_digit(dd[0]));
            lemma_decimal_whole(s, pos + 1, b.len());
            let p = pos + 1 + dd.len() + 2;
            assert forall|k: int| 0 <= k < b.len() implies s.subrange(p, p + b.len())[k] == b[k] by {
                assert(s[p + k] == b[k]);
            }
            assert(s.subrange(p, p + b.len()) =~= b);
        },
        FrameView::Array(v) => {
            let dd = decimal_digits(v.len());
            let body = encode_upto(v, v.len());
            assert(enc =~= seq![STAR] + ((dd + crlf()) + body));
            lemma_agrees_split(s, pos, seq![STAR], (dd + crlf()) + body);
            lemma_agrees_split(s, pos + 1, dd + crlf(), body);
            assert(enc[0] == STAR);
            lemma_decimal_whole(s, pos + 1, v.len());
            let p = pos + 1 + dd.len() + 2;
            lemma_elems_at(s, p, v, 0);
            assert(v.subrange(0, v.len() as int) =~= v);
        },
    }
}

proof fn lemma_elems_at(s: Seq<u8>, pos: int, v: Seq<FrameView>, j: nat)
    requires
        j <= v.len(),
        forall|i: int| 0 <= i < v.len() ==> transmissible(#[trigger] v[i]),
        agrees(s, pos, encode_upto(v, v.len())),
        pos + encode_upto(v, v.len()).len() <= s.len(),
    ensures
        parse_elems(s, pos + encode_upto(v, j).len(), (v.len() - j) as nat) == Ok::<
            (Seq<FrameView>, int),
            Fault,
        >((v.subrange(j as int, v.len() as int), pos + encode_upto(v, v.len()).len())),
        check_elems(s, pos + encode_upto(v, j).len(), (v.len() - j) as nat) == Ok::<int, Fault>(
            pos + encode_upto(v, v.len()).len(),
        ),
    decreases v, v.len() - j,
{
    if j < v.len() {
        let here = pos + encode_upto(v, j).len();
        lemma_element_agrees(s, pos, v, j);
        lemma_frame_at(s, here, v[j as int]);
        lemma_encode_nonempty(v[j as int]);
        lemma_elems_at(s, pos, v, j + 1);
        assert(seq![v[j as int]] + v.subrange(j as int + 1, v.len() as int) =~= v.subrange(
            j as int,
            v.len() as int,
        ));
    } else {
        assert(v.subrange(j as int, v.len() as int) =~= Seq::<FrameView>::empty());
    }
}

proof fn lemma_frame_cut(s: Seq<u8>, pos: int, f: FrameView)
    requires
        transmissible(f),
        agrees(s, pos, encode_spec(f)),
        pos <= s.len() < pos + encode_spec(f).len(),
    ensures
        check_spec(s, pos) == Err::<int, Fault>(Fault::Incomplete),
    decreases f, 0nat,
{
    let enc = encode_spec(f);
    if pos < s.len() {
        match f {
            FrameView::Simple(t) => {
                let body = encode_utf8(t);
                assert(enc =~= seq![PLUS] + (body + crlf()));
                lemma_agrees_split(s, pos, seq![PLUS], body + crlf());
                assert(enc[0] == PLUS);
                lemma_line_cut(s, pos + 1, body);
            },
            FrameView::Error(t) => {
                let body = encode_utf8(t);
                assert(enc =~= seq![MINUS] + (body + crlf()));
                lemma_agrees_split(s, pos, seq![MINUS], body + crlf());
                assert(enc[0] == MINUS);
                lemma_line_cut(s, pos + 1, body);
            },
            FrameView::Integer(n) => {
                let dd = decimal_digits(n as nat);
                assert(enc =~= seq![COLON] + (dd + crlf()));
                lemma_agrees_split(s, pos, seq![COLON], dd + crlf());
                assert(enc[0] == COLON);
                lemma_decimal_cut(s, pos + 1, n as nat);
            },
            FrameView::Null => {
                assert(enc[0] == DOLLAR);
                assert(enc[1] == MINUS);
                assert(enc[2] == ONE);
                assert(enc[3] == CR);
                assert(enc[4] == LF);
            },
            FrameView::Bulk(b) => {
                let dd = decimal_digits(b.len());
                assert(enc =~= seq![DOLLAR] + ((dd + crlf()) + (b + crlf())));
                lemma_agrees_split(s, pos, seq![DOLLAR], (dd + crlf()) + (b + crlf()));
                lemma_agrees_split(s, pos + 1, dd + crlf(), b + crlf());
                assert(enc[0] == DOLLAR);
                lemma_decimal_digits_shape(b.len());
                if pos + 1 < s.len() {
                    assert(enc[1] == dd[0]);
                    assert(is_digit(dd[0]));
                    if s.len() < pos + 1 + dd.len() + 2 {
                        lemma_decimal_cut(s, pos + 1, b.len());
                    } else {
                        lemma_decimal_whole(s, pos + 1, b.len());
                    }
                }
            },
            FrameView::Array(v) => {
                let dd = decimal_digits(v.len());
                let body = encode_upto(v, v.len());
                assert(enc =~= seq![STAR] + ((dd + crlf()) + body));
                lemma_agrees_split(s, pos, seq![STAR], (dd + crlf()) + body);
                lemma_agrees_split(s, pos + 1, dd + crlf(), body);
                assert(enc[0] == STAR);
                if s.len() < pos + 1 + dd.len() + 2 {
                    lemma_decimal_cut(s, pos + 1, v.len());
                } else {
                    lemma_decimal_whole(s, pos + 1, v.len());
                    lemma_elems_cut(s, pos + 1 + dd.len() + 2, v, 0);
                }
            },
        }
    }
}

proof fn lemma_elems_cut(s: Seq<u8>, pos: int, v: Seq<FrameView>, j: nat)
    requires
        j <= v.len(),
        forall|i: int| 0 <= i < v.len() ==> transmissible(#[trigger] v[i]),
        agrees(s, pos, encode_upto(v, v.len())),
        pos + encode_upto(v, j).len() <= s.len() < pos + encode_upto(v, v.len()).len(),
    ensures
        check_elems(s, pos + encode_upto(v, j).len(), (v.len() - j) as nat) == Err::<int, Fault>(
            Fault::Incomplete,
        ),
    decreases v, v.len() - j,
{
    if j < v.len() {
        let here = pos + encode_upto(v, j).len();
        lemma_element_agrees(s, pos, v, j);
        if here + encode_spec(v[j as int]).len() <= s.len() {
            lemma_frame_at(s, here, v[j as int]);
            lemma_encode_nonempty(v[j as int]);
            lemma_elems_cut(s, pos, v, j + 1);
        } else {
            lemma_frame_cut(s, here, v[j as int]);
        }
    }
}

/// Reading an encoded frame gives the frame back and ends exactly at the
/// end of the encoding.
pub proof fn parse_inverts_encode(f: FrameView)
    requires
        transmissible(f),
    ensures
        parse_spec(encode_spec(f), 0) == Ok::<(FrameView, int), Fault>((f, encode_spec(f).len() as int)),
{
    lemma_frame_at(encode_spec(f), 0, f);
}

/// The check accepts a whole encoding and stops exactly at its end.
pub proof fn check_accepts_encoding(f: FrameView)
    requires
        transmissible(f),
    ensures
        check_spec(encode_spec(f), 0) == Ok::<int, Fault>(encode_spec(f).len() as int),
{
    lemma_frame_at(encode_spec(f), 0, f);
}

/// The check reports every strictly shorter prefix of an encoding as
/// incomplete.
pub proof fn check_rejects_strict_prefix(f: FrameView, k: int)
    requires
        transmissible(f),
        0 <= k < encode_spec(f).len(),
    ensures
        check_spec(encode_spec(f).subrange(0, k), 0) == Err::<int, Fault>(Fault::Incomplete),
{
    lemma_frame_cut(encode_spec(f).subrange(0, k), 0, f);
}

/// An encoding is read where it stands, whatever bytes come after it: the
/// check accepts it and stops exactly at its end, without taking a byte of
/// what follows, and reading gives the frame back.
pub proof fn encoding_is_read_before_more(f: FrameView, rest: Seq<u8>)
    requires
        transmissible(f),
    ensures
        check_spec(encode_spec(f) + rest, 0) == Ok::<int, Fault>(encode_spec(f).len() as int),
        parse_spec(encode_spec(f) + rest, 0) == Ok::<(FrameView, int), Fault>(
            (f, encode_spec(f).len() as int),
        ),
{
    let enc = encode_spec(f);
    let s = enc + rest;
    assert forall|k: int| 0 <= k < enc.len() && 0 + k < s.len() implies s[0 + k] == #[trigger] enc[k] by {}
    lemma_frame_at(s, 0, f);
}

/// Whoever reads where the check accepted is never told that bytes are
/// missing, and a frame that is read ends where the check stopped.
pub proof fn parse_follows_check(s: Seq<u8>, pos: int)
    requires
        check_spec(s, pos) is Ok,
    ensures
        parse_spec(s, pos) != Err::<(FrameView, int), Fault>(Fault::Incomplete),
        parse_spec(s, pos) matches Ok((_, p)) ==> p == check_spec(s, pos)->Ok_0,
    decreases bytes_left(s, pos), 0nat,
{
    if s[pos] == STAR {
        let n = decimal_at(s, pos + 1)->Ok_0.0;
        let p = decimal_at(s, pos + 1)->Ok_0.1;
        if n <= usize::MAX {
            lemma_elems_follow_check(s, p, n as nat);
        }
    }
}

proof fn lemma_elems_follow_check(s: Seq<u8>, pos: int, n: nat)
    requires
        check_elems(s, pos, n) is Ok,
    ensures
        parse_elems(s, pos, n) != Err::<(Seq<FrameView>, int), Fault>(Fault::Incomplete),
        parse_elems(s, pos, n) matches Ok((_, p)) ==> p == check_elems(s, pos, n)->Ok_0,
    decreases bytes_left(s, pos), n + 1,
{
    if n > 0 {
        parse_follows_check(s, pos);
        if parse_spec(s, pos) is Ok {
            lemma_elems_follow_check(s, check_spec(s, pos)->Ok_0, (n - 1) as nat);
        }
    }
}

} // verus!
