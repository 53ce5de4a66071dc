use redust::cmd::{Get, Subscribe, Unsubscribe};
use redust::frame::Frame;
use redust::parse::ParseError;
use redust::server::{on_accept_error, AcceptStep, MAX_CONNECTION};
use redust::subscribe::{
    handle, handle_command, make_message_frame, make_subscribe_frame, make_unsubscribe_frame,
    on_event, position, Event, Handled, Step, Subscriptions,
};
use redust::Command;

fn bulk(s: &str) -> Frame {
    Frame::Bulk(s.as_bytes().to_vec())
}

fn names(v: &[&str]) -> Vec<String> {
    v.iter().map(|s| s.to_string()).collect()
}

fn confirm(tag: &str, name: &str, n: u64) -> Frame {
    Frame::Array(vec![bulk(tag), bulk(name), Frame::Integer(n)])
}

#[test]
fn confirmation_frames() {
    assert_eq!(make_subscribe_frame("news".to_string(), 2), confirm("subscribe", "news", 2));
    assert_eq!(make_unsubscribe_frame("news".to_string(), 0), confirm("unsubscribe", "news", 0));
    assert_eq!(
        make_message_frame("news".to_string(), b"hi".to_vec()),
        Frame::Array(vec![bulk("message"), bulk("news"), bulk("hi")])
    );
}

#[test]
fn position_in_a_list() {
    let list = names(&["a", "b"]);
    assert_eq!(position(&list, &"b".to_string()), Some(1));
    assert_eq!(position(&list, &"c".to_string()), None);
}

#[test]
fn subscribing_counts_up() {
    let mut subs = Subscriptions::new();
    assert_eq!(subs.subscribe("a".to_string()), confirm("subscribe", "a", 1));
    assert_eq!(subs.subscribe("b".to_string()), confirm("subscribe", "b", 2));
    assert_eq!(subs.len(), 2);
    assert_eq!(subs.names(), names(&["a", "b"]));
}

#[test]
fn subscribing_again_replaces_the_subscription() {
    let mut subs = Subscriptions::new();
    subs.subscribe("a".to_string());
    subs.subscribe("b".to_string());
    assert_eq!(subs.subscribe("a".to_string()), confirm("subscribe", "a", 2));
    assert_eq!(subs.names(), names(&["b", "a"]));
}

#[test]
fn subscribe_all_confirms_in_request_order() {
    let mut subs = Subscriptions::new();
    let frames = subs.subscribe_all(names(&["x", "y", "x"]));
    assert_eq!(
        frames,
        vec![confirm("subscribe", "x", 1), confirm("subscribe", "y", 2), confirm("subscribe", "x", 2)]
    );
    assert_eq!(subs.names(), names(&["y", "x"]));
}

#[test]
fn unsubscribing_counts_down() {
    let mut subs = Subscriptions::new();
    subs.subscribe_all(names(&["a", "b", "c"]));
    assert_eq!(subs.unsubscribe("b".to_string()), confirm("unsubscribe", "b", 2));
    assert_eq!(subs.unsubscribe("zzz".to_string()), confirm("unsubscribe", "zzz", 2));
    assert_eq!(subs.names(), names(&["a", "c"]));
}

#[test]
fn subscribe_while_listening_queues_the_channels() {
    let mut subs = Subscriptions::new();
    subs.subscribe("a".to_string());
    let mut queue = names(&["p"]);
    let cmd = Command::Subscribe(Subscribe::new(names(&["b", "c"])));
    let out = handle(cmd, &mut queue, &mut subs);
    assert_eq!(out, Handled { responses: vec![], left: vec![] });
    assert_eq!(queue, names(&["p", "b", "c"]));
    assert_eq!(subs.names(), names(&["a"]));
}

#[test]
fn unsubscribe_leaves_the_named_channels() {
    let mut subs = Subscriptions::new();
    subs.subscribe_all(names(&["a", "b", "c"]));
    let mut queue = vec![];
    let cmd = Command::Unsubscribe(Unsubscribe::new(&names(&["c", "a"])));
    let out = handle(cmd, &mut queue, &mut subs);
    assert_eq!(out.responses, vec![confirm("unsubscribe", "c", 2), confirm("unsubscribe", "a", 1)]);
    assert_eq!(out.left, names(&["c", "a"]));
    assert_eq!(subs.names(), names(&["b"]));
}

#[test]
fn unsubscribe_without_names_leaves_all() {
    let mut subs = Subscriptions::new();
    subs.subscribe_all(names(&["a", "b"]));
    let mut queue = vec![];
    let out = handle(Command::Unsubscribe(Unsubscribe::new(&[])), &mut queue, &mut subs);
    assert_eq!(out.responses, vec![confirm("unsubscribe", "a", 1), confirm("unsubscribe", "b", 0)]);
    assert_eq!(out.left, names(&["a", "b"]));
    assert_eq!(subs.len(), 0);
}

#[test]
fn other_commands_are_unknown_while_listening() {
    let mut subs = Subscriptions::new();
    subs.subscribe("a".to_string());
    let mut queue = vec![];
    let out = handle(Command::Get(Get::new("k")), &mut queue, &mut subs);
    assert_eq!(out.responses, vec![Frame::Error("ERR unknown command 'get'".to_string())]);
    assert_eq!(out.left, Vec::<String>::new());
    assert_eq!(subs.names(), names(&["a"]));
}

#[test]
fn handle_command_reads_the_frame() {
    let mut subs = Subscriptions::new();
    subs.subscribe("a".to_string());
    let mut queue = vec![];
    let f = Frame::Array(vec![bulk("UNSUBSCRIBE"), bulk("a")]);
    let out = handle_command(f, &mut queue, &mut subs).unwrap();
    assert_eq!(out.responses, vec![confirm("unsubscribe", "a", 0)]);
    let f = Frame::Array(vec![bulk("subscribe")]);
    assert_eq!(handle_command(f, &mut queue, &mut subs), Err(ParseError::EndOfStream));
    assert!(matches!(handle_command(Frame::Null, &mut queue, &mut subs), Err(ParseError::Other(_))));
}

#[test]
fn accept_backs_off_and_gives_up() {
    assert_eq!(on_accept_error(1), AcceptStep::Retry { wait_secs: 1, next_backoff: 2 });
    assert_eq!(on_accept_error(64), AcceptStep::Retry { wait_secs: 64, next_backoff: 128 });
    assert_eq!(on_accept_error(65), AcceptStep::GiveUp);
    assert_eq!(on_accept_error(128), AcceptStep::GiveUp);
    let mut backoff = 1;
    let mut waits = vec![];
    while let AcceptStep::Retry { wait_secs, next_backoff } = on_accept_error(backoff) {
        waits.push(wait_secs);
        backoff = next_backoff;
    }
    assert_eq!(waits, vec![1, 2, 4, 8, 16, 32, 64]);
}

#[test]
fn connection_limit() {
    assert_eq!(MAX_CONNECTION, 250);
}

#[test]
fn events_while_listening() {
    let mut subs = Subscriptions::new();
    subs.subscribe("a".to_string());
    let mut queue = vec![];
    let e = Event::Message { channel: "a".to_string(), payload: b"hi".to_vec() };
    let want = Handled {
        responses: vec![Frame::Array(vec![bulk("message"), bulk("a"), bulk("hi")])],
        left: vec![],
    };
    assert_eq!(on_event(e, &mut queue, &mut subs), Ok(Step::Listen(want)));
    let f = Frame::Array(vec![bulk("subscribe"), bulk("b")]);
    let want = Handled { responses: vec![], left: vec![] };
    assert_eq!(on_event(Event::Request(f), &mut queue, &mut subs), Ok(Step::Listen(want)));
    assert_eq!(queue, names(&["b"]));
    let f = Frame::Array(vec![bulk("set"), bulk("k"), bulk("v")]);
    let want = Handled {
        responses: vec![Frame::Error("ERR unknown command 'set'".to_string())],
        left: vec![],
    };
    assert_eq!(on_event(Event::Request(f), &mut queue, &mut subs), Ok(Step::Listen(want)));
    assert_eq!(on_event(Event::Request(Frame::Null), &mut queue, &mut subs).is_err(), true);
    assert_eq!(on_event(Event::Closed, &mut queue, &mut subs), Ok(Step::Exit));
    assert_eq!(on_event(Event::Shutdown, &mut queue, &mut subs), Ok(Step::Exit));
    assert_eq!(subs.names(), names(&["a"]));
}

#[test]
fn the_newest_takes_the_place_of_the_one_that_leaves() {
    let mut subs = Subscriptions::new();
    subs.subscribe_all(names(&["a", "b", "c", "d"]));
    assert_eq!(subs.unsubscribe("a".to_string()), confirm("unsubscribe", "a", 3));
    assert_eq!(subs.names(), names(&["d", "b", "c"]));
    assert_eq!(subs.subscribe("b".to_string()), confirm("subscribe", "b", 3));
    assert_eq!(subs.names(), names(&["d", "c", "b"]));
    let mut queue = vec![];
    let out = handle(Command::Unsubscribe(Unsubscribe::new(&[])), &mut queue, &mut subs);
    assert_eq!(
        out.responses,
        vec![
            confirm("unsubscribe", "d", 2),
            confirm("unsubscribe", "c", 1),
            confirm("unsubscribe", "b", 0)
        ]
    );
    assert_eq!(out.left, names(&["d", "c", "b"]));
}
