//! Carrying out a command against the store.

use crate::cmd::{command_in, unknown_message, Command, CommandView, Get, Publish, SetValue};
use crate::db::{get_spec, set_spec, wakes_reaper, Db, DbView};
use crate::frame::{Frame, FrameView};
use crate::parse::ParseError;
use vstd::prelude::*;

verus! {

/// What the connection does once a command has been applied.
#[derive(Debug, PartialEq, Eq)]
pub enum Reply {
    /// Send the frame to the client. `wake` tells whether whoever waits for
    /// expirations must be woken first.
    Send { frame: Frame, wake: bool },
    /// Join these channels and listen until the connection ends.
    Subscribe { channels: Vec<String> },
    /// The command cannot be used here; nothing is sent.
    Unsupported,
}

/// The instant at which a value stored at `now` for `expire` milliseconds
/// expires.
pub open spec fn expires_at(now: u64, expire: Option<u64>) -> Option<u64> {
    match expire {
        Some(d) => Some((now + d) as u64),
        None => None,
    }
}

impl Get {
    /// The answer to this command: the value under the key, or null.
    pub fn apply(self, db: &Db) -> (f: Frame)
        requires
            db.wf(),
        ensures
            f@ == match get_spec(db@, self.key@) {
                Some(d) => FrameView::Bulk(d),
                None => FrameView::Null,
            },
    {
        match db.get(self.key.as_str()) {
            Some(value) => Frame::Bulk(value),
            None => Frame::Null,
        }
    }
}

impl SetValue {
    /// Stores the value at the instant `now` and answers `OK`. Also tells
    /// whether the new entry is now the next to expire.
    pub fn apply(self, db: &mut Db, now: u64) -> (r: (Frame, bool))
        requires
            old(db).wf(),
            old(db)@.next_id < u64::MAX,
            self.expire matches Some(d) ==> now + d <= u64::MAX,
        ensures
            final(db).wf(),
            final(db).feeds() == old(db).feeds(),
            final(db)@ == set_spec(old(db)@, self.key@, self.value@, expires_at(now, self.expire)),
            r.0@ == FrameView::Simple("OK"@),
            r.1 == wakes_reaper(old(db)@, expires_at(now, self.expire)),
    {
        let at: Option<u64> = match self.expire {
            Some(d) => Some(now + d),
            None => None,
        };
        let wake = db.set(self.key, self.value, at);
        (Frame::Simple("OK".to_string()), wake)
    }
}

impl Publish {
    /// Publishes the message and answers with the number of subscribers
    /// that the channel had.
    pub fn apply(self, db: &Db) -> (f: Frame)
        requires
            db.wf(),
        ensures
            f@ is Integer,
            !db@.channels.contains(self.channel@) ==> f@ == FrameView::Integer(0),
    {
        let num_subs = db.publish(self.channel.as_str(), self.message);
        publish_reply(num_subs)
    }
}

/// The answer to a publication that reached `num_subs` subscribers.
pub fn publish_reply(num_subs: usize) -> (f: Frame)
    ensures
        f@ == FrameView::Integer(num_subs as u64),
{
    Frame::Integer(num_subs as u64)
}

/// What applying `command` to a store with the value `db` at the instant
/// `now` asks of the connection.
pub open spec fn reply_spec(command: CommandView, db: DbView, now: u64, r: Reply) -> bool {
    match command {
        CommandView::Get(key) => r matches Reply::Send { frame, wake } && !wake && frame@ == (match get_spec(
            db,
            key,
        ) {
            Some(d) => FrameView::Bulk(d),
            None => FrameView::Null,
        }),
        CommandView::SetValue(key, value, expire) => r matches Reply::Send { frame, wake } && frame@
            == FrameView::Simple("OK"@) && wake == wakes_reaper(db, expires_at(now, expire)),
        CommandView::Publish(channel, _) => r matches Reply::Send { frame, wake } && !wake && frame@
            is Integer && (!db.channels.contains(channel) ==> frame@ == FrameView::Integer(0)),
        CommandView::Subscribe(names) => r matches Reply::Subscribe { channels } && crate::cmd::names_of(
            channels@,
        ) == names,
        CommandView::Unsubscribe(_) => r is Unsupported,
        CommandView::Unknown(name) => r matches Reply::Send { frame, wake } && !wake && frame@
            == FrameView::Error(unknown_message(name)),
    }
}

/// The store after `command` was applied at the instant `now`: only `set`
/// changes it.
pub open spec fn store_after(command: CommandView, db: DbView, now: u64) -> DbView {
    match command {
        CommandView::SetValue(key, value, expire) => set_spec(db, key, value, expires_at(now, expire)),
        _ => db,
    }
}

impl Command {
    /// Carries out the command at the instant `now`. Only `set` needs an
    /// identifier to be left.
    pub fn apply(self, db: &mut Db, now: u64) -> (r: Reply)
        requires
            old(db).wf(),
            self@ is SetValue ==> old(db)@.next_id < u64::MAX,
            self@ matches CommandView::SetValue(_, _, Some(d)) ==> now + d <= u64::MAX,
        ensures
            final(db).wf(),
            final(db).feeds() == old(db).feeds(),
            final(db)@ == store_after(self@, old(db)@, now),
            reply_spec(self@, old(db)@, now, r),
    {
        match self {
            Command::Get(cmd) => Reply::Send { frame: cmd.apply(db), wake: false },
            Command::SetValue(cmd) => {
                let (frame, wake) = cmd.apply(db, now);
                Reply::Send { frame, wake }
            },
            Command::Publish(cmd) => Reply::Send { frame: cmd.apply(db), wake: false },
            Command::Subscribe(cmd) => Reply::Subscribe { channels: cmd.channels },
            Command::Unsubscribe(_) => Reply::Unsupported,
            Command::Unknown(cmd) => Reply::Send { frame: cmd.response(), wake: false },
        }
    }
}

/// Reads the command in `frame` and carries it out at the instant `now`.
/// A frame that holds no command leaves the store as it is.
pub fn serve(frame: Frame, db: &mut Db, now: u64) -> (r: Result<Reply, ParseError>)
    requires
        old(db).wf(),
        (command_in(frame@) is Ok && command_in(frame@)->Ok_0 is SetValue) ==> old(db)@.next_id
            < u64::MAX,
    ensures
        final(db).wf(),
        final(db).feeds() == old(db).feeds(),
        match command_in(frame@) {
            Ok(c) => r is Ok && reply_spec(c, old(db)@, now, r->Ok_0) && final(db)@ == store_after(
                c,
                old(db)@,
                now,
            ),
            Err(f) => r is Err && r->Err_0.describes(f) && final(db)@ == old(db)@,
        },
{
    match Command::from_frame(frame) {
        Ok(command) => Ok(command.apply(db, now)),
        Err(e) => Err(e),
    }
}

} // verus!
