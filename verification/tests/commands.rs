use redust::cmd::{Get, Publish, SetValue, Subscribe, Unknown, Unsubscribe};
use redust::frame::Frame;
use redust::parse::{Parse, ParseError};
use redust::Command;

fn bulk(s: &str) -> Frame {
    Frame::Bulk(s.as_bytes().to_vec())
}

fn request(parts: &[&str]) -> Frame {
    Frame::Array(parts.iter().map(|p| bulk(p)).collect())
}

fn is_other<T>(r: Result<T, ParseError>) -> bool {
    matches!(r, Err(ParseError::Other(_)))
}

#[test]
fn reads_get() {
    assert_eq!(Command::from_frame(request(&["get", "foo"])), Ok(Command::Get(Get::new("foo"))));
}

#[test]
fn command_name_ignores_case() {
    assert_eq!(Command::from_frame(request(&["GET", "foo"])), Ok(Command::Get(Get::new("foo"))));
    assert_eq!(Command::from_frame(request(&["GeT", "foo"])), Ok(Command::Get(Get::new("foo"))));
}

#[test]
fn from_name_expects_lower_case() {
    let mut parse = Parse::new(request(&["foo"])).unwrap();
    assert_eq!(
        Command::from_name("GET".to_string(), &mut parse),
        Ok(Command::Unknown(Unknown::new("GET")))
    );
    let mut parse = Parse::new(request(&["foo"])).unwrap();
    assert_eq!(Command::from_name("get".to_string(), &mut parse), Ok(Command::Get(Get::new("foo"))));
}

#[test]
fn command_name_may_be_a_simple_frame() {
    let f = Frame::Array(vec![Frame::Simple("get".to_string()), Frame::Simple("k".to_string())]);
    assert_eq!(Command::from_frame(f), Ok(Command::Get(Get::new("k"))));
}

#[test]
fn reads_set() {
    let want = SetValue::new("foo", b"bar".to_vec(), None);
    assert_eq!(Command::from_frame(request(&["set", "foo", "bar"])), Ok(Command::SetValue(want)));
}

#[test]
fn set_takes_binary_values() {
    let f = Frame::Array(vec![bulk("set"), bulk("k"), Frame::Bulk(vec![255, 0])]);
    let want = SetValue::new("k", vec![255, 0], None);
    assert_eq!(Command::from_frame(f), Ok(Command::SetValue(want)));
}

#[test]
fn reads_publish() {
    let want = Publish::new("news", b"hi".to_vec());
    assert_eq!(Command::from_frame(request(&["publish", "news", "hi"])), Ok(Command::Publish(want)));
}

#[test]
fn reads_subscribe() {
    let want = Subscribe::new(vec!["a".to_string(), "b".to_string()]);
    assert_eq!(Command::from_frame(request(&["subscribe", "a", "b"])), Ok(Command::Subscribe(want)));
}

#[test]
fn subscribe_needs_a_channel() {
    assert_eq!(Command::from_frame(request(&["subscribe"])), Err(ParseError::EndOfStream));
}

#[test]
fn reads_unsubscribe() {
    let want = Unsubscribe::new(&["a".to_string()]);
    assert_eq!(Command::from_frame(request(&["unsubscribe", "a"])), Ok(Command::Unsubscribe(want)));
    let none = Unsubscribe::new(&[]);
    assert_eq!(Command::from_frame(request(&["unsubscribe"])), Ok(Command::Unsubscribe(none)));
}

#[test]
fn other_names_are_unknown() {
    assert_eq!(
        Command::from_frame(request(&["PING", "x", "y"])),
        Ok(Command::Unknown(Unknown::new("ping")))
    );
}

#[test]
fn rejects_frames_that_are_not_arrays() {
    assert!(is_other(Command::from_frame(bulk("get"))));
    assert!(is_other(Command::from_frame(Frame::Null)));
    assert!(is_other(Parse::new(Frame::Integer(1))));
}

#[test]
fn rejects_empty_array() {
    assert_eq!(Command::from_frame(Frame::Array(vec![])), Err(ParseError::EndOfStream));
}

#[test]
fn rejects_missing_arguments() {
    assert_eq!(Command::from_frame(request(&["get"])), Err(ParseError::EndOfStream));
    assert_eq!(Command::from_frame(request(&["set", "k"])), Err(ParseError::EndOfStream));
    assert_eq!(Command::from_frame(request(&["publish"])), Err(ParseError::EndOfStream));
}

#[test]
fn rejects_trailing_data() {
    assert!(is_other(Command::from_frame(request(&["get", "a", "b"]))));
    assert!(is_other(Command::from_frame(request(&["set", "a", "b", "c"]))));
    assert!(is_other(Command::from_frame(request(&["publish", "a", "b", "c"]))));
}

#[test]
fn rejects_arguments_of_the_wrong_shape() {
    let f = Frame::Array(vec![bulk("get"), Frame::Integer(1)]);
    assert!(is_other(Command::from_frame(f)));
    let f = Frame::Array(vec![bulk("get"), Frame::Bulk(vec![255])]);
    assert!(is_other(Command::from_frame(f)));
    let f = Frame::Array(vec![bulk("set"), bulk("k"), Frame::Null]);
    assert!(is_other(Command::from_frame(f)));
    let f = Frame::Array(vec![bulk("subscribe"), bulk("a"), Frame::Integer(2)]);
    assert!(is_other(Command::from_frame(f)));
    let f = Frame::Array(vec![Frame::Integer(1)]);
    assert!(is_other(Command::from_frame(f)));
}

#[test]
fn argument_coercions() {
    let f = Frame::Array(vec![
        Frame::Simple("text".to_string()),
        bulk("7"),
        Frame::Simple("12".to_string()),
        Frame::Integer(9),
        Frame::Simple("raw".to_string()),
        bulk("x"),
    ]);
    let mut p = Parse::new(f).unwrap();
    assert_eq!(p.next_string(), Ok("text".to_string()));
    assert_eq!(p.next_int(), Ok(7));
    assert_eq!(p.next_int(), Ok(12));
    assert_eq!(p.next_int(), Ok(9));
    assert_eq!(p.next_bytes(), Ok(b"raw".to_vec()));
    assert!(is_other(p.finish()));
    assert_eq!(p.next_bytes(), Ok(b"x".to_vec()));
    assert_eq!(p.finish(), Ok(()));
    assert_eq!(p.next_string(), Err(ParseError::EndOfStream));
    assert_eq!(p.next_bytes(), Err(ParseError::EndOfStream));
    assert_eq!(p.next_int(), Err(ParseError::EndOfStream));
}

#[test]
fn next_int_rejects_text_that_is_no_number() {
    let mut p = Parse::new(Frame::Array(vec![bulk("abc"), Frame::Null])).unwrap();
    assert!(is_other(p.next_int()));
    assert!(is_other(p.next_int()));
}

#[test]
fn parse_error_messages() {
    assert_eq!(ParseError::EndOfStream.message(), "protocol error; unexpected end of stream");
    assert_eq!(ParseError::Other("m".to_string()).message(), "m");
}

#[test]
fn commands_turn_into_request_frames() {
    assert_eq!(Get::new("foo").into_frame(), request(&["get", "foo"]));
    assert_eq!(SetValue::new("foo", b"bar".to_vec(), None).into_frame(), request(&["set", "foo", "bar"]));
    assert_eq!(
        SetValue::new("foo", b"bar".to_vec(), Some(1500)).into_frame(),
        Frame::Array(vec![bulk("set"), bulk("foo"), bulk("bar"), bulk("px"), Frame::Integer(1500)])
    );
    assert_eq!(Publish::new("c", b"m".to_vec()).into_frame(), request(&["publish", "c", "m"]));
    assert_eq!(
        Subscribe::new(vec!["a".to_string(), "b".to_string()]).into_frame(),
        request(&["subscribe", "a", "b"])
    );
    assert_eq!(Unsubscribe::new(&[]).into_frame(), request(&["unsubscribe"]));
}

#[test]
fn request_frames_are_read_back() {
    let f = Get::new("k").into_frame();
    assert_eq!(Command::from_frame(f), Ok(Command::Get(Get::new("k"))));
    let f = Publish::new("c", b"m".to_vec()).into_frame();
    assert_eq!(Command::from_frame(f), Ok(Command::Publish(Publish::new("c", b"m".to_vec()))));
}

#[test]
fn getters() {
    assert_eq!(Get::new("k").key(), "k");
    assert_eq!(SetValue::new("k", vec![], None).key(), "k");
    assert_eq!(Unknown::new("foo").get_name(), "foo");
}

#[test]
fn command_names() {
    assert_eq!(Command::Get(Get::new("k")).get_name(), "get");
    assert_eq!(Command::SetValue(SetValue::new("k", vec![], None)).get_name(), "set");
    assert_eq!(Command::Publish(Publish::new("c", vec![])).get_name(), "publish");
    assert_eq!(Command::Subscribe(Subscribe::new(vec![])).get_name(), "subscribe");
    assert_eq!(Command::Unsubscribe(Unsubscribe::new(&[])).get_name(), "unsubscribe");
    assert_eq!(Command::Unknown(Unknown::new("zap")).get_name(), "zap");
}

#[test]
fn unknown_command_is_answered_with_an_error() {
    assert_eq!(
        Unknown::new("zap").response(),
        Frame::Error("ERR unknown command 'zap'".to_string())
    );
}

fn message_of<T: std::fmt::Debug>(r: Result<T, ParseError>) -> String {
    r.unwrap_err().message()
}

#[test]
fn faults_are_reported_with_their_messages() {
    assert_eq!(message_of(Command::from_frame(Frame::Null)), "protocol error; expected array, got Null");
    assert_eq!(
        message_of(Command::from_frame(Frame::Simple("get".to_string()))),
        "protocol error; expected array, got Simple(\"get\")"
    );
    assert_eq!(
        message_of(Command::from_frame(request(&["get", "a", "b"]))),
        "protocol error; expected end of frame, but there was more"
    );
    let f = Frame::Array(vec![bulk("get"), Frame::Integer(1)]);
    assert_eq!(
        message_of(Command::from_frame(f)),
        "protocol error; expected simple frame or bulk frame, got Integer(1)"
    );
    let f = Frame::Array(vec![bulk("set"), bulk("k"), Frame::Array(vec![Frame::Null])]);
    assert_eq!(
        message_of(Command::from_frame(f)),
        "protocol error; expected simple frame or bulk frame, got Array([Null])"
    );
    let f = Frame::Array(vec![bulk("get"), Frame::Bulk(vec![255])]);
    assert_eq!(message_of(Command::from_frame(f)), "protocol error; invalid string");
    let f = Frame::Array(vec![bulk("subscribe"), bulk("a"), Frame::Bulk(vec![255]), Frame::Null]);
    assert_eq!(message_of(Command::from_frame(f)), "protocol error; invalid string");
    let mut p = Parse::new(Frame::Array(vec![bulk("x"), Frame::Null])).unwrap();
    assert_eq!(message_of(p.next_int()), "protocol error; invalid number");
    assert_eq!(message_of(p.next_int()), "protocol error; expected int frame, got Null");
    assert_eq!(message_of(p.next_int()), "protocol error; unexpected end of stream");
}
