use redust::apply::{publish_reply, serve, Reply};
use redust::cmd::{Get, Publish, SetValue, Subscribe, Unknown, Unsubscribe};
use redust::connection::{Connection, ReadStep};
use redust::db::subscriber_count;
use redust::frame::{Error, Frame};
use redust::{Command, Db};

#[test]
fn set_then_get_returns_the_value() {
    let mut db = Db::new();
    db.set("k".to_string(), b"v".to_vec(), None);
    assert_eq!(db.get("k"), Some(b"v".to_vec()));
    db.set("k".to_string(), vec![0, 255], Some(10));
    assert_eq!(db.get("k"), Some(vec![0, 255]));
}

#[test]
fn get_of_a_key_never_set_is_absent() {
    let mut db = Db::new();
    assert_eq!(db.get("k"), None);
    db.set("other".to_string(), b"v".to_vec(), None);
    assert_eq!(db.get("k"), None);
    db.purge_expired_keys(100);
    assert_eq!(db.get("k"), None);
}

#[test]
fn entry_is_gone_after_its_expiration() {
    let mut db = Db::new();
    db.set("k".to_string(), b"v".to_vec(), Some(50));
    assert_eq!(db.purge_expired_keys(49), Some(50));
    assert_eq!(db.get("k"), Some(b"v".to_vec()));
    assert_eq!(db.purge_expired_keys(50), None);
    assert_eq!(db.get("k"), None);
}

#[test]
fn get_returns_an_expired_entry_until_it_is_purged() {
    let mut db = Db::new();
    db.set("k".to_string(), b"v".to_vec(), Some(5));
    assert_eq!(db.get("k"), Some(b"v".to_vec()));
}

#[test]
fn entries_that_expire_together_are_both_purged() {
    let mut db = Db::new();
    db.set("a".to_string(), b"1".to_vec(), Some(7));
    db.set("b".to_string(), b"2".to_vec(), Some(7));
    db.set("c".to_string(), b"3".to_vec(), Some(9));
    db.set("d".to_string(), b"4".to_vec(), None);
    assert_eq!(db.next_expiration(), Some(7));
    assert_eq!(db.purge_expired_keys(8), Some(9));
    assert_eq!(db.get("a"), None);
    assert_eq!(db.get("b"), None);
    assert_eq!(db.get("c"), Some(b"3".to_vec()));
    assert_eq!(db.get("d"), Some(b"4".to_vec()));
    assert_eq!(db.purge_expired_keys(9), None);
    assert_eq!(db.get("d"), Some(b"4".to_vec()));
}

#[test]
fn replacing_an_entry_drops_its_old_expiration() {
    let mut db = Db::new();
    db.set("k".to_string(), b"old".to_vec(), Some(5));
    db.set("k".to_string(), b"new".to_vec(), None);
    assert_eq!(db.next_expiration(), None);
    assert_eq!(db.purge_expired_keys(100), None);
    assert_eq!(db.get("k"), Some(b"new".to_vec()));
}

#[test]
fn set_wakes_the_reaper_only_for_a_sooner_expiration() {
    let mut db = Db::new();
    assert!(!db.set("a".to_string(), vec![], None));
    assert!(db.set("b".to_string(), vec![], Some(100)));
    assert!(!db.set("c".to_string(), vec![], Some(200)));
    assert!(!db.set("d".to_string(), vec![], Some(100)));
    assert!(db.set("e".to_string(), vec![], Some(99)));
    assert!(!db.set("f".to_string(), vec![], None));
}

#[test]
fn identifiers_count_up() {
    let mut db = Db::new();
    assert_eq!(db.next_id_value(), 0);
    db.set("a".to_string(), vec![], None);
    db.set("a".to_string(), vec![], None);
    assert_eq!(db.next_id_value(), 2);
    assert!(db.has_room());
}

#[test]
fn shutdown_stops_purging() {
    let mut db = Db::new();
    db.set("k".to_string(), b"v".to_vec(), Some(1));
    assert!(!db.is_shutdown());
    db.shutdown();
    assert!(db.is_shutdown());
    assert_eq!(db.purge_expired_keys(10), None);
    assert_eq!(db.get("k"), Some(b"v".to_vec()));
}

#[test]
fn a_channel_has_a_feed_once_it_was_subscribed_to() {
    let mut db = Db::new();
    assert!(db.feed("news").is_none());
    let _rx = db.subscribe("news".to_string());
    assert!(db.feed("news").is_some());
    assert!(db.feed("sport").is_none());
}

#[test]
fn published_message_reaches_a_subscriber_once() {
    let mut db = Db::new();
    let mut rx = db.subscribe("news".to_string());
    assert_eq!(db.publish("news", b"hello".to_vec()), 1);
    assert_eq!(&rx.try_recv().unwrap()[..], b"hello");
    assert!(rx.try_recv().is_err());
}

#[test]
fn every_subscribe_gives_a_new_receiver() {
    let mut db = Db::new();
    let mut one = db.subscribe("news".to_string());
    assert_eq!(db.publish("news", b"early".to_vec()), 1);
    let mut two = db.subscribe("news".to_string());
    assert_eq!(db.publish("news", b"m".to_vec()), 2);
    assert_eq!(&one.try_recv().unwrap()[..], b"early");
    assert_eq!(&one.try_recv().unwrap()[..], b"m");
    assert_eq!(&two.try_recv().unwrap()[..], b"m");
    assert!(two.try_recv().is_err());
}

#[test]
fn publish_counts_the_subscribers() {
    let mut db = Db::new();
    let one = db.subscribe("news".to_string());
    let two = db.feed("news").unwrap().subscribe();
    assert_eq!(db.publish("news", b"m".to_vec()), 2);
    drop(one);
    assert_eq!(db.publish("news", b"n".to_vec()), 1);
    drop(two);
    assert_eq!(db.publish("news", b"o".to_vec()), 0);
}

#[test]
fn publishing_without_subscribers_counts_zero() {
    let mut db = Db::new();
    assert_eq!(db.publish("nobody", b"m".to_vec()), 0);
    let _other = db.subscribe("other".to_string());
    assert_eq!(db.publish("nobody", b"m".to_vec()), 0);
    assert_eq!(subscriber_count(None), 0);
    assert_eq!(subscriber_count(Some(3)), 3);
}

#[test]
fn keys_and_channels_do_not_interact() {
    let mut db = Db::new();
    db.set("name".to_string(), b"v".to_vec(), Some(9));
    assert_eq!(db.publish("name", b"m".to_vec()), 0);
    let _rx = db.subscribe("name".to_string());
    assert_eq!(db.get("name"), Some(b"v".to_vec()));
    assert_eq!(db.next_expiration(), Some(9));
    let _topic = db.subscribe("topic".to_string());
    assert_eq!(db.get("topic"), None);
    db.set("topic".to_string(), b"w".to_vec(), None);
    assert_eq!(db.publish("topic", b"m".to_vec()), 1);
}

#[test]
fn applying_commands() {
    let mut db = Db::new();
    let r = Command::Get(Get::new("foo")).apply(&mut db, 0);
    assert_eq!(r, Reply::Send { frame: Frame::Null, wake: false });
    let r = Command::SetValue(SetValue::new("foo", b"bar".to_vec(), Some(10))).apply(&mut db, 5);
    assert_eq!(r, Reply::Send { frame: Frame::Simple("OK".to_string()), wake: true });
    assert_eq!(db.next_expiration(), Some(15));
    let r = Command::Get(Get::new("foo")).apply(&mut db, 0);
    assert_eq!(r, Reply::Send { frame: Frame::Bulk(b"bar".to_vec()), wake: false });
    let r = Command::Publish(Publish::new("c", b"m".to_vec())).apply(&mut db, 0);
    assert_eq!(r, Reply::Send { frame: Frame::Integer(0), wake: false });
    let rx = db.subscribe("c".to_string());
    let r = Command::Publish(Publish::new("c", b"m".to_vec())).apply(&mut db, 0);
    assert_eq!(r, Reply::Send { frame: Frame::Integer(1), wake: false });
    drop(rx);
    let r = Command::Subscribe(Subscribe::new(vec!["c".to_string()])).apply(&mut db, 0);
    assert_eq!(r, Reply::Subscribe { channels: vec!["c".to_string()] });
    let r = Command::Unsubscribe(Unsubscribe::new(&[])).apply(&mut db, 0);
    assert_eq!(r, Reply::Unsupported);
    let r = Command::Unknown(Unknown::new("zap")).apply(&mut db, 0);
    assert_eq!(
        r,
        Reply::Send { frame: Frame::Error("ERR unknown command 'zap'".to_string()), wake: false }
    );
}

fn answer(conn: &mut Connection, db: &mut Db, input: &[u8]) -> Vec<u8> {
    assert_eq!(conn.on_read(input), ReadStep::Retry);
    let frame = conn.parse_frame().unwrap().unwrap();
    match serve(frame, db, 0).unwrap() {
        Reply::Send { frame, .. } => conn.write_frame(&frame),
        other => panic!("unexpected reply {:?}", other),
    }
}

#[test]
fn get_set_get_over_the_wire() {
    let mut conn = Connection::new();
    let mut db = Db::new();
    assert_eq!(answer(&mut conn, &mut db, b"*2\r\n$3\r\nGET\r\n$3\r\nfoo\r\n"), b"$-1\r\n".to_vec());
    assert_eq!(
        answer(&mut conn, &mut db, b"*3\r\n$3\r\nSET\r\n$3\r\nfoo\r\n$3\r\nbar\r\n"),
        b"+OK\r\n".to_vec()
    );
    assert_eq!(
        answer(&mut conn, &mut db, b"*2\r\n$3\r\nGET\r\n$3\r\nfoo\r\n"),
        b"$3\r\nbar\r\n".to_vec()
    );
}

#[test]
fn connection_waits_for_a_whole_frame() {
    let mut conn = Connection::new();
    assert_eq!(conn.parse_frame(), Ok(None));
    assert_eq!(conn.on_read(b"*2\r\n$3\r\nGET\r\n$3\r\nfo"), ReadStep::Retry);
    assert_eq!(conn.parse_frame(), Ok(None));
    assert_eq!(conn.on_read(b"o\r\n+next"), ReadStep::Retry);
    let want = Frame::Array(vec![Frame::Bulk(b"GET".to_vec()), Frame::Bulk(b"foo".to_vec())]);
    assert_eq!(conn.parse_frame(), Ok(Some(want)));
    assert_eq!(conn.parse_frame(), Ok(None));
    assert_eq!(conn.on_read(b"\r\n"), ReadStep::Retry);
    assert_eq!(conn.parse_frame(), Ok(Some(Frame::Simple("next".to_string()))));
    assert_eq!(conn.parse_frame(), Ok(None));
}

#[test]
fn connection_end_of_stream() {
    let mut conn = Connection::new();
    assert_eq!(conn.on_read(b""), ReadStep::Closed);
    assert_eq!(conn.on_read(b"+par"), ReadStep::Retry);
    assert_eq!(conn.on_read(b""), ReadStep::Reset);
}

#[test]
fn connection_reports_malformed_input() {
    let mut conn = Connection::new();
    conn.on_read(b"!oops\r\n");
    assert!(matches!(conn.parse_frame(), Err(Error::Other(_))));
    assert!(matches!(conn.parse_frame(), Err(Error::Other(_))));
}

#[test]
fn connection_writes_the_encoding() {
    let conn = Connection::new();
    assert_eq!(conn.write_frame(&Frame::Integer(2)), b":2\r\n".to_vec());
}

#[test]
fn serve_rejects_what_is_no_command() {
    let mut db = Db::new();
    assert!(serve(Frame::Null, &mut db, 0).is_err());
    assert!(serve(Frame::Array(vec![Frame::Bulk(b"get".to_vec())]), &mut db, 0).is_err());
    assert_eq!(db.next_id_value(), 0);
}

#[test]
fn index_follows_the_entries() {
    let mut db = Db::new();
    db.set("late".to_string(), vec![], Some(30));
    db.set("soon".to_string(), vec![], Some(10));
    db.set("mid".to_string(), vec![], Some(20));
    assert_eq!(db.next_expiration(), Some(10));
    db.set("soon".to_string(), vec![], Some(40));
    assert_eq!(db.next_expiration(), Some(20));
    db.set("mid".to_string(), vec![], None);
    assert_eq!(db.next_expiration(), Some(30));
    assert_eq!(db.purge_expired_keys(35), Some(40));
    assert_eq!(db.get("late"), None);
    assert_eq!(db.get("mid"), Some(vec![]));
    assert_eq!(db.purge_expired_keys(40), None);
    assert_eq!(db.get("soon"), None);
}

#[test]
fn publish_is_answered_with_the_count() {
    assert_eq!(publish_reply(0), Frame::Integer(0));
    assert_eq!(publish_reply(3), Frame::Integer(3));
}

#[test]
fn a_channel_keeps_its_feed() {
    let mut db = Db::new();
    let mut rx = db.subscribe("news".to_string());
    drop(db.subscribe("sport".to_string()));
    db.set("k".to_string(), b"v".to_vec(), Some(1));
    db.purge_expired_keys(5);
    let mut late = db.feed("news").unwrap().subscribe();
    assert_eq!(db.publish("news", b"m".to_vec()), 2);
    assert_eq!(&rx.try_recv().unwrap()[..], b"m");
    assert_eq!(&late.try_recv().unwrap()[..], b"m");
    assert_eq!(db.publish("sport", b"m".to_vec()), 0);
}

#[test]
fn many_keys() {
    let mut db = Db::new();
    for i in 0..500u64 {
        db.set(format!("k{}", i), i.to_string().into_bytes(), if i % 2 == 0 { Some(1000 - i) } else { None });
    }
    assert_eq!(db.get("k7"), Some(b"7".to_vec()));
    assert_eq!(db.next_expiration(), Some(502));
    assert_eq!(db.purge_expired_keys(750), Some(752));
    assert_eq!(db.get("k498"), None);
    assert_eq!(db.get("k250"), None);
    assert_eq!(db.get("k248"), Some(b"248".to_vec()));
    assert_eq!(db.get("k499"), Some(b"499".to_vec()));
}
