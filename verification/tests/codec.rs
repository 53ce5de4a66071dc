use redust::decimal::write_decimal;
use redust::frame::{get_decimal, get_line, get_u8, peek_u8, skip, Cursor, Error, Frame};

fn check_len(bytes: &[u8]) -> Result<usize, Error> {
    let mut cur = Cursor::new(bytes);
    Frame::check(&mut cur).map(|_| cur.position())
}

fn parse_all(bytes: &[u8]) -> Result<Frame, Error> {
    let mut cur = Cursor::new(bytes);
    Frame::check(&mut cur)?;
    cur.set_position(0);
    let frame = Frame::parse(&mut cur)?;
    assert_eq!(cur.position(), bytes.len());
    Ok(frame)
}

fn bulk(s: &str) -> Frame {
    Frame::Bulk(s.as_bytes().to_vec())
}

fn is_malformed<T: std::fmt::Debug>(r: Result<T, Error>) -> bool {
    matches!(r, Err(Error::Other(_)))
}

#[test]
fn encodes_simple() {
    assert_eq!(Frame::Simple("OK".to_string()).encode(), b"+OK\r\n".to_vec());
}

#[test]
fn encodes_error() {
    assert_eq!(Frame::Error("bad".to_string()).encode(), b"-bad\r\n".to_vec());
}

#[test]
fn encodes_integer() {
    assert_eq!(Frame::Integer(0).encode(), b":0\r\n".to_vec());
    assert_eq!(Frame::Integer(1234).encode(), b":1234\r\n".to_vec());
    assert_eq!(Frame::Integer(u64::MAX).encode(), b":18446744073709551615\r\n".to_vec());
}

#[test]
fn encodes_null() {
    assert_eq!(Frame::Null.encode(), b"$-1\r\n".to_vec());
}

#[test]
fn encodes_bulk() {
    assert_eq!(bulk("bar").encode(), b"$3\r\nbar\r\n".to_vec());
    assert_eq!(bulk("").encode(), b"$0\r\n\r\n".to_vec());
    assert_eq!(Frame::Bulk(vec![0, 13, 10, 255]).encode(), b"$4\r\n\x00\r\n\xff\r\n".to_vec());
}

#[test]
fn encodes_array() {
    let f = Frame::Array(vec![bulk("GET"), bulk("foo")]);
    assert_eq!(f.encode(), b"*2\r\n$3\r\nGET\r\n$3\r\nfoo\r\n".to_vec());
    assert_eq!(Frame::Array(vec![]).encode(), b"*0\r\n".to_vec());
}

#[test]
fn encodes_nested_array() {
    let f = Frame::Array(vec![Frame::Array(vec![Frame::Integer(7)]), Frame::Null]);
    assert_eq!(f.encode(), b"*2\r\n*1\r\n:7\r\n$-1\r\n".to_vec());
}

#[test]
fn writes_decimal_numerals() {
    let mut out = b"x".to_vec();
    write_decimal(&mut out, 905);
    assert_eq!(out, b"x905".to_vec());
}

fn samples() -> Vec<Frame> {
    vec![
        Frame::Simple("OK".to_string()),
        Frame::Simple(String::new()),
        Frame::Simple("ends with cr\r".to_string()),
        Frame::Simple("h\u{e9}llo \u{1f600}".to_string()),
        Frame::Error("ERR unknown command 'x'".to_string()),
        Frame::Integer(0),
        Frame::Integer(64),
        Frame::Integer(u64::MAX),
        Frame::Null,
        bulk(""),
        bulk("bar"),
        Frame::Bulk(vec![13, 10, 13, 10]),
        Frame::Bulk((0..=255u8).collect()),
        Frame::Array(vec![]),
        Frame::Array(vec![bulk("SET"), bulk("foo"), bulk("bar")]),
        Frame::Array(vec![
            Frame::Array(vec![Frame::Integer(1), Frame::Null]),
            Frame::Simple("x".to_string()),
            Frame::Array(vec![]),
        ]),
    ]
}

#[test]
fn parse_inverts_encode_on_samples() {
    for f in samples() {
        let bytes = f.encode();
        assert_eq!(parse_all(&bytes), Ok(f));
    }
}

#[test]
fn check_stops_at_the_end_of_the_encoding() {
    for f in samples() {
        let mut bytes = f.encode();
        let len = bytes.len();
        assert_eq!(check_len(&bytes), Ok(len));
        bytes.extend_from_slice(b"+next\r\n");
        assert_eq!(check_len(&bytes), Ok(len));
    }
}

#[test]
fn check_reports_every_strict_prefix_as_incomplete() {
    for f in samples() {
        let bytes = f.encode();
        for k in 0..bytes.len() {
            assert_eq!(check_len(&bytes[..k]), Err(Error::Incomplete));
        }
    }
}

#[test]
fn text_with_a_line_terminator_does_not_round_trip() {
    let f = Frame::Simple("a\r\nb".to_string());
    let bytes = f.encode();
    assert_eq!(check_len(&bytes), Ok(4));
    let mut cur = Cursor::new(&bytes);
    assert_eq!(Frame::parse(&mut cur), Ok(Frame::Simple("a".to_string())));
}

#[test]
fn check_rejects_unknown_type_byte() {
    assert!(is_malformed(check_len(b"?3\r\n")));
    assert!(is_malformed(check_len(b"\r\n")));
}

#[test]
fn check_rejects_non_numeric_length() {
    assert!(is_malformed(check_len(b"$abc\r\nxyz\r\n")));
    assert!(is_malformed(check_len(b":\r\n")));
    assert!(is_malformed(check_len(b"*x\r\n")));
    assert!(is_malformed(check_len(b":18446744073709551616\r\n")));
    assert!(is_malformed(check_len(b":-1\r\n")));
}

#[test]
fn numbers_follow_the_digit_reader() {
    assert_eq!(parse_all(b":12\r\n"), Ok(Frame::Integer(12)));
    assert_eq!(parse_all(b":0042\r\n"), Ok(Frame::Integer(42)));
    assert_eq!(parse_all(b":+5\r\n"), Ok(Frame::Integer(5)));
    assert_eq!(parse_all(b":12abc\r\n"), Ok(Frame::Integer(12)));
    assert_eq!(parse_all(b":-0\r\n"), Ok(Frame::Integer(0)));
    assert_eq!(parse_all(b":+\r\n"), Ok(Frame::Integer(0)));
    assert_eq!(parse_all(b":18446744073709551615\r\n"), Ok(Frame::Integer(u64::MAX)));
}

#[test]
fn get_decimal_reads_a_line() {
    let bytes = b"250\r\nrest".to_vec();
    let mut cur = Cursor::new(&bytes);
    assert_eq!(get_decimal(&mut cur), Ok(250));
    assert_eq!(cur.position(), 5);
    let bytes = b"250".to_vec();
    let mut cur = Cursor::new(&bytes);
    assert_eq!(get_decimal(&mut cur), Err(Error::Incomplete));
}

#[test]
fn check_is_incomplete_on_empty_input() {
    assert_eq!(check_len(b""), Err(Error::Incomplete));
}

#[test]
fn only_the_null_marker_may_look_negative() {
    assert_eq!(check_len(b"$-1\r\n"), Ok(5));
    assert_eq!(check_len(b"$-1\r\nmore"), Ok(5));
    assert_eq!(parse_all(b"$-1\r\n"), Ok(Frame::Null));
    assert!(is_malformed(check_len(b"$-2\r\n")));
    assert!(is_malformed(check_len(b"$-xyz")));
    assert!(is_malformed(check_len(b"$-1XY")));
    assert!(is_malformed(check_len(b"$-10\r\n")));
    assert!(is_malformed(check_len(b"$-2")));
    assert!(is_malformed(check_len(b"$-1\rX")));
}

#[test]
fn a_cut_null_marker_is_incomplete() {
    assert_eq!(check_len(b"$"), Err(Error::Incomplete));
    assert_eq!(check_len(b"$-"), Err(Error::Incomplete));
    assert_eq!(check_len(b"$-1"), Err(Error::Incomplete));
    assert_eq!(check_len(b"$-1\r"), Err(Error::Incomplete));
}

fn noise(seed: u64, len: usize) -> Vec<u8> {
    let alphabet = b"+-:$*0123\r\nab";
    let mut x = seed;
    let mut out = Vec::new();
    for _ in 0..len {
        x = x.wrapping_mul(6364136223846793005).wrapping_add(1442695040888963407);
        out.push(alphabet[((x >> 33) % alphabet.len() as u64) as usize]);
    }
    out
}

#[test]
fn parse_after_check_is_never_incomplete_and_ends_where_check_did() {
    let mut accepted = 0;
    for seed in 0..4000u64 {
        let bytes = noise(seed, 1 + (seed % 12) as usize);
        let mut cur = Cursor::new(&bytes);
        if Frame::check(&mut cur).is_ok() {
            accepted += 1;
            let end = cur.position();
            cur.set_position(0);
            match Frame::parse(&mut cur) {
                Ok(_) => assert_eq!(cur.position(), end),
                Err(e) => assert!(matches!(e, Error::Other(_))),
            }
        }
    }
    assert!(accepted > 0);
}

#[test]
fn parse_rejects_invalid_utf8_in_a_line() {
    let bytes = b"+\xff\xfe\r\n".to_vec();
    assert_eq!(check_len(&bytes), Ok(5));
    let mut cur = Cursor::new(&bytes);
    assert!(is_malformed(Frame::parse(&mut cur)));
}

#[test]
fn parse_reads_utf8_text() {
    assert_eq!(parse_all("+h\u{e9}\r\n".as_bytes()), Ok(Frame::Simple("h\u{e9}".to_string())));
    assert_eq!(parse_all(b"-oops\r\n"), Ok(Frame::Error("oops".to_string())));
}

#[test]
fn parse_reads_bulk_with_any_bytes() {
    assert_eq!(parse_all(b"$4\r\n\r\n\r\n\r\n"), Ok(Frame::Bulk(vec![13, 10, 13, 10])));
}

#[test]
fn parse_leaves_following_bytes() {
    let bytes = b"$3\r\nbar\r\n:1\r\n".to_vec();
    let mut cur = Cursor::new(&bytes);
    assert_eq!(Frame::parse(&mut cur), Ok(bulk("bar")));
    assert_eq!(cur.position(), 9);
    assert_eq!(Frame::parse(&mut cur), Ok(Frame::Integer(1)));
    assert_eq!(cur.position(), 13);
}

#[test]
fn array_builders_append() {
    let mut f = Frame::array();
    f.push_bulk(b"a".to_vec());
    f.push_int(3);
    assert_eq!(f, Frame::Array(vec![bulk("a"), Frame::Integer(3)]));
}

#[test]
fn cursor_helpers() {
    let bytes = b"ab\r\ncd".to_vec();
    let mut cur = Cursor::new(&bytes);
    assert_eq!(peek_u8(&mut cur), Ok(b'a'));
    assert_eq!(cur.position(), 0);
    assert_eq!(get_u8(&mut cur), Ok(b'a'));
    assert_eq!(cur.position(), 1);
    assert_eq!(get_line(&mut cur), Ok(&b"b"[..]));
    assert_eq!(cur.position(), 4);
    assert_eq!(cur.remaining(), 2);
    assert_eq!(skip(&mut cur, 3), Err(Error::Incomplete));
    assert_eq!(cur.position(), 4);
    assert_eq!(skip(&mut cur, 2), Ok(()));
    assert_eq!(cur.position(), 6);
    assert_eq!(get_line(&mut cur), Err(Error::Incomplete));
    assert_eq!(peek_u8(&mut cur), Err(Error::Incomplete));
    assert_eq!(get_u8(&mut cur), Err(Error::Incomplete));
}

#[test]
fn get_line_needs_both_terminator_bytes() {
    let bytes = b"ab\r".to_vec();
    let mut cur = Cursor::new(&bytes);
    assert_eq!(get_line(&mut cur), Err(Error::Incomplete));
    let bytes = b"a\rb\n\r\n".to_vec();
    let mut cur = Cursor::new(&bytes);
    assert_eq!(get_line(&mut cur), Ok(&b"a\rb\n"[..]));
}

#[test]
fn error_messages() {
    assert_eq!(Error::Incomplete.message(), "stream ended early");
    assert_eq!(Error::Other("x".to_string()).message(), "x");
}

#[test]
fn frames_as_text() {
    assert_eq!(Frame::Simple("OK".to_string()).to_text(), "OK");
    assert_eq!(Frame::Error("bad".to_string()).to_text(), "error: bad");
    assert_eq!(Frame::Integer(0).to_text(), "0");
    assert_eq!(Frame::Integer(18446744073709551615).to_text(), "18446744073709551615");
    assert_eq!(bulk("bar").to_text(), "bar");
    assert_eq!(Frame::Bulk(vec![255, b'a', 13]).to_text(), "b\"\\xffa\\r\"");
    assert_eq!(Frame::Null.to_text(), "(nil)");
    assert_eq!(Frame::Array(vec![]).to_text(), "");
    assert_eq!(Frame::Array(vec![bulk("a")]).to_text(), "");
    assert_eq!(Frame::Array(vec![bulk("a"), Frame::Integer(2), Frame::Null]).to_text(), " 2 (nil)");
}

#[test]
fn unexpected_frame_message() {
    assert_eq!(Frame::Integer(7).to_error(), "unexpected frame: 7");
}

#[test]
fn decimal_strings() {
    assert_eq!(redust::display::decimal_string(0), "0");
    assert_eq!(redust::display::decimal_string(250), "250");
}

#[test]
fn frames_compare_with_text() {
    assert!(Frame::Simple("OK".to_string()).eq_str("OK"));
    assert!(!Frame::Simple("OK".to_string()).eq_str("ok"));
    assert!(bulk("bar").eq_str("bar"));
    assert!(!bulk("bar").eq_str("ba"));
    assert!(!Frame::Error("OK".to_string()).eq_str("OK"));
    assert!(!Frame::Null.eq_str(""));
    assert!(redust::frame::same_bytes(b"ab", b"ab"));
    assert!(!redust::frame::same_bytes(b"ab", b"ac"));
}

#[test]
fn duplicate_copies_a_frame() {
    for f in samples() {
        assert_eq!(redust::frame::duplicate(&f), f);
        assert_eq!(f.clone(), f);
    }
}

#[test]
fn malformed_frames_are_reported_with_a_message() {
    assert_eq!(
        check_len(b"?3\r\n"),
        Err(Error::Other("protocol error; invalid frame type byte `63`".to_string()))
    );
    assert_eq!(
        check_len(b"$x\r\n"),
        Err(Error::Other("protocol error; invalid frame format".to_string()))
    );
    let bytes = b"+\xff\r\n".to_vec();
    let mut cur = Cursor::new(&bytes);
    assert_eq!(
        Frame::parse(&mut cur),
        Err(Error::Other("protocol error; invalid frame format".to_string()))
    );
}
