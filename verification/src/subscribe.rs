//! A subscribing connection: the channels it listens on, the frames that
//! confirm each change, and what each event means for it.

use crate::cmd::{
    bulk_text, command_in, name_of, names_of, text_bytes, unknown_message, Command, CommandView, Unknown,
};
use crate::frame::{views_of, Frame, FrameView};
use crate::parse::ParseError;
use vstd::prelude::*;

verus! {

/// The position of `name` in `channels`, if it is one of them.
pub open spec fn slot_spec(channels: Seq<Seq<char>>, name: Seq<char>) -> Option<int> {
    if exists|i: int| 0 <= i < channels.len() && #[trigger] channels[i] == name {
        Some(choose|i: int| 0 <= i < channels.len() && #[trigger] channels[i] == name)
    } else {
        None
    }
}

/// No name occurs twice in `s`.
pub open spec fn distinct(s: Seq<Seq<char>>) -> bool {
    forall|i: int, j: int| 0 <= i < s.len() && 0 <= j < s.len() && i != j ==> s[i] != s[j]
}

/// `s` without `name`: the newest member takes the place of the one that
/// leaves.
pub open spec fn without(s: Seq<Seq<char>>, name: Seq<char>) -> Seq<Seq<char>> {
    match slot_spec(s, name) {
        Some(i) => s.update(i, s.last()).drop_last(),
        None => s,
    }
}

/// `s` with `name` as its newest member.
pub open spec fn with_newest(s: Seq<Seq<char>>, name: Seq<char>) -> Seq<Seq<char>> {
    without(s, name).push(name)
}

/// The array of a tag, a channel name and a number of subscriptions.
pub open spec fn count_frame(tag: Seq<char>, name: Seq<char>, count: nat) -> FrameView {
    FrameView::Array(seq![bulk_text(tag), bulk_text(name), FrameView::Integer(count as u64)])
}

/// The frame that hands a published message to a subscriber.
pub open spec fn message_frame(name: Seq<char>, msg: Seq<u8>) -> FrameView {
    FrameView::Array(seq![bulk_text("message"@), bulk_text(name), FrameView::Bulk(msg)])
}

/// The subscriptions after each of `targets` was joined in turn.
pub open spec fn join_all(subs: Seq<Seq<char>>, targets: Seq<Seq<char>>) -> Seq<Seq<char>>
    decreases targets.len(),
{
    if targets.len() == 0 {
        subs
    } else {
        join_all(with_newest(subs, targets[0]), targets.drop_first())
    }
}

/// The confirmations for joining each of `targets` in turn: each carries
/// the number of subscriptions right after its own join.
pub open spec fn join_frames(subs: Seq<Seq<char>>, targets: Seq<Seq<char>>) -> Seq<FrameView>
    decreases targets.len(),
{
    if targets.len() == 0 {
        Seq::empty()
    } else {
        seq![count_frame("subscribe"@, targets[0], with_newest(subs, targets[0]).len())] + join_frames(
            with_newest(subs, targets[0]),
            targets.drop_first(),
        )
    }
}

/// The subscriptions after each of `targets` was left in turn.
pub open spec fn leave_all(subs: Seq<Seq<char>>, targets: Seq<Seq<char>>) -> Seq<Seq<char>>
    decreases targets.len(),
{
    if targets.len() == 0 {
        subs
    } else {
        leave_all(without(subs, targets[0]), targets.drop_first())
    }
}

/// The confirmations for leaving each of `targets` in turn: each carries
/// the number of subscriptions right after its own removal.
pub open spec fn leave_frames(subs: Seq<Seq<char>>, targets: Seq<Seq<char>>) -> Seq<FrameView>
    decreases targets.len(),
{
    if targets.len() == 0 {
        Seq::empty()
    } else {
        seq![count_frame("unsubscribe"@, targets[0], without(subs, targets[0]).len())] + leave_frames(
            without(subs, targets[0]),
            targets.drop_first(),
        )
    }
}

/// The position of `name` in a list without repetitions.
pub fn position(list: &Vec<String>, name: &String) -> (r: Option<usize>)
    requires
        distinct(names_of(list@)),
    ensures
        match r {
            Some(i) => slot_spec(names_of(list@), name@) == Some(i as int) && i < list@.len(),
            None => slot_spec(names_of(list@), name@) is None,
        },
{
    let ghost names = names_of(list@);
    let mut i: usize = 0;
    while i < list.len()
        invariant
            i <= list@.len(),
            names == names_of(list@),
            distinct(names),
            forall|j: int| 0 <= j < i ==> #[trigger] names[j] != name@,
        decreases list.len() - i,
    {
        if list[i] == *name {
            proof {
                assert(names[i as int] == name@);
                let j = slot_spec(names, name@)->Some_0;
                assert(names[j] == name@);
            }
            return Some(i);
        }
        i = i + 1;
    }
    None
}

fn make_count_frame(tag: &str, channel_name: String, count: usize) -> (f: Frame)
    ensures
        f@ == count_frame(tag@, channel_name@, count as nat),
{
    let mut f = Frame::array();
    f.push_bulk(text_bytes(tag));
    f.push_bulk(text_bytes(channel_name.as_str()));
    f.push_int(count as u64);
    assert(f@->Array_0 =~= seq![
        bulk_text(tag@),
        bulk_text(channel_name@),
        FrameView::Integer(count as u64),
    ]);
    f
}

/// The frame that confirms a subscription to `channel_name`, with the
/// number of subscriptions the connection then has.
pub fn make_subscribe_frame(channel_name: String, num_subs: usize) -> (f: Frame)
    ensures
        f@ == count_frame("subscribe"@, channel_name@, num_subs as nat),
{
    make_count_frame("subscribe", channel_name, num_subs)
}

/// The frame that confirms the end of the subscription to `channel_name`,
/// with the number of subscriptions the connection has left.
pub fn make_unsubscribe_frame(channel_name: String, num_subs: usize) -> (f: Frame)
    ensures
        f@ == count_frame("unsubscribe"@, channel_name@, num_subs as nat),
{
    make_count_frame("unsubscribe", channel_name, num_subs)
}

/// The frame that hands the message `msg`, published on `channel_name`, to
/// a subscriber.
pub fn make_message_frame(channel_name: String, msg: Vec<u8>) -> (f: Frame)
    ensures
        f@ == message_frame(channel_name@, msg@),
{
    let mut f = Frame::array();
    f.push_bulk(text_bytes("message"));
    f.push_bulk(text_bytes(channel_name.as_str()));
    f.push_bulk(msg);
    assert(f@->Array_0 =~= seq![bulk_text("message"@), bulk_text(channel_name@), FrameView::Bulk(msg@)]);
    f
}

/// The channels that one connection is subscribed to, in the order in
/// which its feeds are held: a new one comes last, and when one leaves the
/// last takes its place.
#[derive(Debug)]
pub struct Subscriptions {
    channels: Vec<String>,
}

impl View for Subscriptions {
    type V = Seq<Seq<char>>;

    closed spec fn view(&self) -> Seq<Seq<char>> {
        names_of(self.channels@)
    }
}

proof fn lemma_swap_remove_names(v: Seq<String>, i: int)
    requires
        0 <= i < v.len(),
        distinct(names_of(v)),
    ensures
        names_of(v.update(i, v.last()).drop_last()) == names_of(v).update(i, names_of(v).last()).drop_last(),
        distinct(names_of(v.update(i, v.last()).drop_last())),
        forall|j: int|
            0 <= j < v.len() - 1 ==> #[trigger] names_of(v.update(i, v.last()).drop_last())[j] != names_of(
                v,
            )[i],
{
    let names = names_of(v);
    let a = names_of(v.update(i, v.last()).drop_last());
    let b = names.update(i, names.last()).drop_last();
    assert(a =~= b);
    assert forall|x: int| 0 <= x < b.len() implies #[trigger] b[x] == names[if x == i {
        v.len() - 1
    } else {
        x
    }] by {}
    assert forall|x: int, y: int| 0 <= x < b.len() && 0 <= y < b.len() && x != y implies b[x] != b[y] by {
        let x0 = if x == i { v.len() - 1 } else { x };
        let y0 = if y == i { v.len() - 1 } else { y };
        assert(b[x] == names[x0]);
        assert(b[y] == names[y0]);
    }
    assert forall|j: int| 0 <= j < v.len() - 1 implies #[trigger] a[j] != names[i] by {
        let j0 = if j == i { v.len() - 1 } else { j };
        assert(b[j] == names[j0]);
    }
}

impl Subscriptions {
    /// No channel is held twice.
    pub open spec fn wf(&self) -> bool {
        distinct(self@)
    }

    /// No subscriptions.
    pub fn new() -> (s: Subscriptions)
        ensures
            s.wf(),
            s@ == Seq::<Seq<char>>::empty(),
    {
        let s = Subscriptions { channels: Vec::new() };
        assert(s@ =~= Seq::<Seq<char>>::empty());
        s
    }

    pub fn len(&self) -> (n: usize)
        ensures
            n == self@.len(),
    {
        self.channels.len()
    }

    /// The channels, in the order in which they are held.
    pub fn names(&self) -> (v: Vec<String>)
        ensures
            names_of(v@) == self@,
    {
        let mut out: Vec<String> = Vec::new();
        let mut i: usize = 0;
        while i < self.channels.len()
            invariant
                i <= self.channels@.len(),
                names_of(out@) == self@.take(i as int),
            decreases self.channels.len() - i,
        {
            let ghost prev = out@;
            let name = self.channels[i].clone();
            out.push(name);
            assert(out@ =~= prev.push(name));
            assert(names_of(out@) =~= names_of(prev).push(name@));
            i = i + 1;
            assert(self@.take(i as int) =~= self@.take(i - 1).push(self@[i - 1]));
        }
        assert(self@.take(i as int) =~= self@);
        out
    }

    fn forget(&mut self, name: &String)
        requires
            old(self).wf(),
        ensures
            final(self).wf(),
            final(self)@ == without(old(self)@, name@),
            slot_spec(final(self)@, name@) is None,
    {
        match position(&self.channels, name) {
            Some(i) => {
                proof {
                    lemma_swap_remove_names(self.channels@, i as int);
                }
                self.channels.swap_remove(i);
                proof {
                    if slot_spec(self@, name@) is Some {
                        let j = slot_spec(self@, name@)->Some_0;
                        assert(self@[j] == name@);
                    }
                }
            },
            None => {},
        }
    }

    /// Adds `name` as the newest subscription, in place of an older one to
    /// the same channel, and returns the frame that confirms it.
    pub fn subscribe(&mut self, name: String) -> (f: Frame)
        requires
            old(self).wf(),
        ensures
            final(self).wf(),
            final(self)@ == with_newest(old(self)@, name@),
            f@ == count_frame("subscribe"@, name@, final(self)@.len()),
    {
        self.forget(&name);
        let ghost mid = self@;
        let held = name.clone();
        self.channels.push(held);
        proof {
            assert(self@ =~= mid.push(name@));
            assert forall|i: int, j: int| 0 <= i < self@.len() && 0 <= j < self@.len() && i != j implies self@[i]
                != self@[j] by {
                if i < mid.len() {
                    assert(self@[i] == mid[i]);
                }
                if j < mid.len() {
                    assert(self@[j] == mid[j]);
                }
            }
        }
        make_subscribe_frame(name, self.channels.len())
    }

    /// Ends the subscription to `name`, if there is one, and returns the
    /// frame that confirms it.
    pub fn unsubscribe(&mut self, name: String) -> (f: Frame)
        requires
            old(self).wf(),
        ensures
            final(self).wf(),
            final(self)@ == without(old(self)@, name@),
            f@ == count_frame("unsubscribe"@, name@, final(self)@.len()),
    {
        self.forget(&name);
        make_unsubscribe_frame(name, self.channels.len())
    }

    /// Joins every channel of `pending`, in order, and returns one
    /// confirmation for each.
    pub fn subscribe_all(&mut self, pending: Vec<String>) -> (frames: Vec<Frame>)
        requires
            old(self).wf(),
        ensures
            final(self).wf(),
            final(self)@ == join_all(old(self)@, names_of(pending@)),
            views_of(frames@) == join_frames(old(self)@, names_of(pending@)),
    {
        let ghost targets = names_of(pending@);
        let mut frames: Vec<Frame> = Vec::new();
        let mut i: usize = 0;
        assert(targets.skip(0) =~= targets);
        assert(views_of(frames@) + join_frames(self@, targets) =~= join_frames(self@, targets));
        while i < pending.len()
            invariant
                i <= pending@.len(),
                self.wf(),
                targets == names_of(pending@),
                join_all(old(self)@, targets) == join_all(self@, targets.skip(i as int)),
                join_frames(old(self)@, targets) == views_of(frames@) + join_frames(
                    self@,
                    targets.skip(i as int),
                ),
            decreases pending.len() - i,
        {
            let ghost subs = self@;
            let ghost sent = views_of(frames@);
            let ghost prev = frames@;
            let name = pending[i].clone();
            let frame = self.subscribe(name);
            frames.push(frame);
            proof {
                let tail = targets.skip(i as int);
                assert(tail[0] == targets[i as int]);
                assert(tail.drop_first() =~= targets.skip(i + 1));
                assert(frames@ =~= prev.push(frame));
                assert(views_of(frames@) =~= sent.push(frame@));
                assert(sent + (seq![frame@] + join_frames(self@, targets.skip(i + 1))) =~= views_of(frames@)
                    + join_frames(self@, targets.skip(i + 1)));
            }
            i = i + 1;
        }
        proof {
            assert(views_of(frames@) + Seq::<FrameView>::empty() =~= views_of(frames@));
        }
        frames
    }

    /// Leaves every channel of `targets`, in order, and returns one
    /// confirmation for each.
    pub fn unsubscribe_all(&mut self, targets: &Vec<String>) -> (frames: Vec<Frame>)
        requires
            old(self).wf(),
        ensures
            final(self).wf(),
            final(self)@ == leave_all(old(self)@, names_of(targets@)),
            views_of(frames@) == leave_frames(old(self)@, names_of(targets@)),
    {
        let ghost names = names_of(targets@);
        let mut frames: Vec<Frame> = Vec::new();
        let mut i: usize = 0;
        assert(names.skip(0) =~= names);
        assert(views_of(frames@) + leave_frames(self@, names) =~= leave_frames(self@, names));
        while i < targets.len()
            invariant
                i <= targets@.len(),
                self.wf(),
                names == names_of(targets@),
                leave_all(old(self)@, names) == leave_all(self@, names.skip(i as int)),
                leave_frames(old(self)@, names) == views_of(frames@) + leave_frames(
                    self@,
                    names.skip(i as int),
                ),
            decreases targets.len() - i,
        {
            let ghost sent = views_of(frames@);
            let ghost prev = frames@;
            let name = targets[i].clone();
            let frame = self.unsubscribe(name);
            frames.push(frame);
            proof {
                let tail = names.skip(i as int);
                assert(tail[0] == names[i as int]);
                assert(tail.drop_first() =~= names.skip(i + 1));
                assert(frames@ =~= prev.push(frame));
                assert(views_of(frames@) =~= sent.push(frame@));
                assert(sent + (seq![frame@] + leave_frames(self@, names.skip(i + 1))) =~= views_of(frames@)
                    + leave_frames(self@, names.skip(i + 1)));
            }
            i = i + 1;
        }
        proof {
            assert(views_of(frames@) + Seq::<FrameView>::empty() =~= views_of(frames@));
        }
        frames
    }
}

/// What a subscribing connection does about a command from its client.
#[derive(Debug, PartialEq, Eq)]
pub struct Handled {
    /// The frames to send to the client, in order.
    pub responses: Vec<Frame>,
    /// The channels whose feeds the connection gives up.
    pub left: Vec<String>,
}

/// How a command changes a subscribing connection.
///
/// `subscribe` queues its channels to be joined; `unsubscribe` leaves the
/// named channels, or all of them if none is named, and confirms each; any
/// other command is answered as unknown and changes nothing.
pub open spec fn handled(
    command: CommandView,
    queue_before: Seq<Seq<char>>,
    subs_before: Seq<Seq<char>>,
    queue_after: Seq<Seq<char>>,
    subs_after: Seq<Seq<char>>,
    responses: Seq<FrameView>,
    left: Seq<Seq<char>>,
) -> bool {
    match command {
        CommandView::Subscribe(names) => queue_after == queue_before + names && subs_after == subs_before
            && responses.len() == 0 && left.len() == 0,
        CommandView::Unsubscribe(names) => {
            let targets = if names.len() == 0 {
                subs_before
            } else {
                names
            };
            queue_after == queue_before && subs_after == leave_all(subs_before, targets) && responses
                == leave_frames(subs_before, targets) && left == targets
        },
        _ => queue_after == queue_before && subs_after == subs_before && responses == seq![
            FrameView::Error(unknown_message(name_of(command))),
        ] && left.len() == 0,
    }
}

/// Applies a command that arrived while the connection is subscribed.
pub fn handle(command: Command, subscribe_to: &mut Vec<String>, subscriptions: &mut Subscriptions) -> (out:
    Handled)
    requires
        old(subscriptions).wf(),
    ensures
        final(subscriptions).wf(),
        handled(
            command@,
            names_of(old(subscribe_to)@),
            old(subscriptions)@,
            names_of(final(subscribe_to)@),
            final(subscriptions)@,
            views_of(out.responses@),
            names_of(out.left@),
        ),
{
    match command {
        Command::Subscribe(sub) => {
            let mut channels = sub.channels;
            let ghost added = channels@;
            subscribe_to.append(&mut channels);
            assert(names_of(subscribe_to@) =~= names_of(old(subscribe_to)@) + names_of(added));
            Handled { responses: Vec::new(), left: Vec::new() }
        },
        Command::Unsubscribe(unsubscribe) => {
            let targets = if unsubscribe.channels.len() == 0 {
                subscriptions.names()
            } else {
                unsubscribe.channels
            };
            let responses = subscriptions.unsubscribe_all(&targets);
            Handled { responses, left: targets }
        },
        command => {
            let cmd = Unknown::new(command.get_name());
            let mut responses: Vec<Frame> = Vec::new();
            let frame = cmd.response();
            responses.push(frame);
            assert(views_of(responses@) =~= seq![frame@]);
            Handled { responses, left: Vec::new() }
        },
    }
}

/// Reads a command from `frame` and applies it to the subscribing
/// connection. A frame that holds no command changes nothing.
pub fn handle_command(frame: Frame, subscribe_to: &mut Vec<String>, subscriptions: &mut Subscriptions) -> (r:
    Result<Handled, ParseError>)
    requires
        old(subscriptions).wf(),
    ensures
        final(subscriptions).wf(),
        match command_in(frame@) {
            Ok(c) => r is Ok && handled(
                c,
                names_of(old(subscribe_to)@),
                old(subscriptions)@,
                names_of(final(subscribe_to)@),
                final(subscriptions)@,
                views_of(r->Ok_0.responses@),
                names_of(r->Ok_0.left@),
            ),
            Err(f) => r is Err && r->Err_0.describes(f) && final(subscribe_to)@ == old(subscribe_to)@
                && final(subscriptions)@ == old(subscriptions)@,
        },
{
    match Command::from_frame(frame) {
        Ok(command) => Ok(handle(command, subscribe_to, subscriptions)),
        Err(e) => Err(e),
    }
}

/// What a subscribing connection waits for.
#[derive(Debug, PartialEq, Eq)]
pub enum Event {
    /// A message was published on a channel the connection listens on.
    Message { channel: String, payload: Vec<u8> },
    /// The client sent a frame.
    Request(Frame),
    /// The client closed the stream.
    Closed,
    /// The server is shutting down.
    Shutdown,
}

/// What a subscribing connection does next.
#[derive(Debug, PartialEq, Eq)]
pub enum Step {
    /// Send the responses, give up the feeds that were left, join the
    /// channels that are queued, and go on listening.
    Listen(Handled),
    /// Stop listening: the connection is done.
    Exit,
}

/// The step that an event asks for while the connection listens.
///
/// A published message is forwarded to the client; a frame from the client
/// is read as a command and applied; the end of the stream and the
/// shutdown signal both end the listening. Only a command changes the
/// subscriptions or the queue of channels to join.
pub fn on_event(event: Event, subscribe_to: &mut Vec<String>, subscriptions: &mut Subscriptions) -> (r:
    Result<Step, ParseError>)
    requires
        old(subscriptions).wf(),
    ensures
        final(subscriptions).wf(),
        match event {
            Event::Message { channel, payload } => {
                &&& r is Ok && r->Ok_0 is Listen
                &&& views_of(r->Ok_0->Listen_0.responses@) == seq![message_frame(channel@, payload@)]
                &&& r->Ok_0->Listen_0.left@.len() == 0
                &&& final(subscribe_to)@ == old(subscribe_to)@
                &&& final(subscriptions)@ == old(subscriptions)@
            },
            Event::Request(frame) => match command_in(frame@) {
                Ok(c) => r is Ok && r->Ok_0 is Listen && handled(
                    c,
                    names_of(old(subscribe_to)@),
                    old(subscriptions)@,
                    names_of(final(subscribe_to)@),
                    final(subscriptions)@,
                    views_of(r->Ok_0->Listen_0.responses@),
                    names_of(r->Ok_0->Listen_0.left@),
                ),
                Err(f) => r is Err && r->Err_0.describes(f) && final(subscribe_to)@ == old(subscribe_to)@
                    && final(subscriptions)@ == old(subscriptions)@,
            },
            _ => {
                &&& r is Ok && r->Ok_0 is Exit
                &&& final(subscribe_to)@ == old(subscribe_to)@
                &&& final(subscriptions)@ == old(subscriptions)@
            },
        },
{
    match event {
        Event::Message { channel, payload } => {
            let mut responses: Vec<Frame> = Vec::new();
            let frame = make_message_frame(channel, payload);
            responses.push(frame);
            assert(views_of(responses@) =~= seq![frame@]);
            Ok(Step::Listen(Handled { responses, left: Vec::new() }))
        },
        Event::Request(frame) => match handle_command(frame, subscribe_to, subscriptions) {
            Ok(handled) => Ok(Step::Listen(handled)),
            Err(e) => Err(e),
        },
        Event::Closed => Ok(Step::Exit),
        Event::Shutdown => Ok(Step::Exit),
    }
}

} // verus!
