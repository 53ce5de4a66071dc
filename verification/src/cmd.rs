//! The typed commands and how one is recognised in a frame.

use crate::frame::{Frame, FrameView};
use crate::parse::{bytes_of, string_of, Parse, ParseError, ParseFault};
use vstd::prelude::*;
use vstd::slice::slice_to_vec;
use vstd::string::StringExecFns;
use vstd::utf8::encode_utf8;

verus! {

/// Reads the value stored under a key.
#[derive(Clone, Debug, PartialEq, Eq)]
pub struct Get {
    pub key: String,
}

/// Stores a value under a key, optionally for a limited time given in
/// milliseconds.
#[derive(Clone, Debug, PartialEq, Eq)]
pub struct SetValue {
    pub key: String,
    pub value: Vec<u8>,
    pub expire: Option<u64>,
}

/// Posts a message to a channel.
#[derive(Clone, Debug, PartialEq, Eq)]
pub struct Publish {
    pub channel: String,
    pub message: Vec<u8>,
}

/// Subscribes the connection to one or more channels.
#[derive(Clone, Debug, PartialEq, Eq)]
pub struct Subscribe {
    pub channels: Vec<String>,
}

/// Unsubscribes the connection from the named channels, or from all of its
/// channels if none is named.
#[derive(Clone, Debug, PartialEq, Eq)]
pub struct Unsubscribe {
    pub channels: Vec<String>,
}

/// A command that the server does not know.
#[derive(Clone, Debug, PartialEq, Eq)]
pub struct Unknown {
    pub command_name: String,
}

#[derive(Clone, Debug, PartialEq, Eq)]
pub enum Command {
    Get(Get),
    SetValue(SetValue),
    Publish(Publish),
    Subscribe(Subscribe),
    Unsubscribe(Unsubscribe),
    Unknown(Unknown),
}

/// The mathematical value of a command.
pub enum CommandView {
    Get(Seq<char>),
    SetValue(Seq<char>, Seq<u8>, Option<u64>),
    Publish(Seq<char>, Seq<u8>),
    Subscribe(Seq<Seq<char>>),
    Unsubscribe(Seq<Seq<char>>),
    Unknown(Seq<char>),
}

/// The texts of a sequence of strings.
pub open spec fn names_of(v: Seq<String>) -> Seq<Seq<char>> {
    Seq::new(v.len(), |i: int| v[i]@)
}

impl View for Command {
    type V = CommandView;

    open spec fn view(&self) -> CommandView {
        match self {
            Command::Get(c) => CommandView::Get(c.key@),
            Command::SetValue(c) => CommandView::SetValue(c.key@, c.value@, c.expire),
            Command::Publish(c) => CommandView::Publish(c.channel@, c.message@),
            Command::Subscribe(c) => CommandView::Subscribe(names_of(c.channels@)),
            Command::Unsubscribe(c) => CommandView::Unsubscribe(names_of(c.channels@)),
            Command::Unknown(c) => CommandView::Unknown(c.command_name@),
        }
    }
}

/// The name by which a command goes.
pub open spec fn name_of(c: CommandView) -> Seq<char> {
    match c {
        CommandView::Get(_) => "get"@,
        CommandView::SetValue(_, _, _) => "set"@,
        CommandView::Publish(_, _) => "publish"@,
        CommandView::Subscribe(_) => "subscribe"@,
        CommandView::Unsubscribe(_) => "unsubscribe"@,
        CommandView::Unknown(name) => name,
    }
}

/// Puts `first` in front of the texts of a successful outcome.
pub open spec fn after_text(first: Seq<char>, r: Result<Seq<Seq<char>>, ParseFault>) -> Result<
    Seq<Seq<char>>,
    ParseFault,
> {
    match r {
        Ok(rest) => Ok(seq![first] + rest),
        Err(f) => Err(f),
    }
}

/// The texts that the frames of `args` stand for, or the fault of the
/// first frame that stands for none.
pub open spec fn texts_of(args: Seq<FrameView>) -> Result<Seq<Seq<char>>, ParseFault>
    decreases args.len(),
{
    if args.len() == 0 {
        Ok(Seq::empty())
    } else {
        match string_of(args[0]) {
            Err(f) => Err(f),
            Ok(t) => after_text(t, texts_of(args.drop_first())),
        }
    }
}

/// A bulk frame that holds the bytes of `text`.
pub open spec fn bulk_text(text: Seq<char>) -> FrameView {
    FrameView::Bulk(encode_utf8(text))
}

/// One bulk frame for each name.
pub open spec fn bulk_names(names: Seq<Seq<char>>) -> Seq<FrameView> {
    Seq::new(names.len(), |i: int| bulk_text(names[i]))
}

/// The outcome `r`, provided that nothing is left of `rest`.
pub open spec fn finished(r: Result<CommandView, ParseFault>, rest: Seq<FrameView>) -> Result<
    CommandView,
    ParseFault,
> {
    match r {
        Ok(c) => if rest.len() > 0 {
            Err(ParseFault::TrailingData)
        } else {
            Ok(c)
        },
        Err(f) => Err(f),
    }
}

/// The command with one text argument, read from the front of `args`.
pub open spec fn first_one(args: Seq<FrameView>) -> Result<CommandView, ParseFault> {
    if args.len() == 0 {
        Err(ParseFault::EndOfStream)
    } else {
        match string_of(args[0]) {
            Err(f) => Err(f),
            Ok(k) => Ok(CommandView::Get(k)),
        }
    }
}

/// The command with one text and one binary argument, read from the front
/// of `args`: `set` if `store` holds, `publish` otherwise.
pub open spec fn first_two(args: Seq<FrameView>, store: bool) -> Result<CommandView, ParseFault> {
    if args.len() == 0 {
        Err(ParseFault::EndOfStream)
    } else {
        match string_of(args[0]) {
            Err(f) => Err(f),
            Ok(k) => if args.len() == 1 {
                Err(ParseFault::EndOfStream)
            } else {
                match bytes_of(args[1]) {
                    Err(f) => Err(f),
                    Ok(v) => if store {
                        Ok(CommandView::SetValue(k, v, None))
                    } else {
                        Ok(CommandView::Publish(k, v))
                    },
                }
            },
        }
    }
}

/// The channels of a `subscribe`: one at least, and nothing but names.
pub open spec fn subscribe_args(args: Seq<FrameView>) -> Result<CommandView, ParseFault> {
    if args.len() == 0 {
        Err(ParseFault::EndOfStream)
    } else {
        match texts_of(args) {
            Err(f) => Err(f),
            Ok(names) => Ok(CommandView::Subscribe(names)),
        }
    }
}

/// The channels of an `unsubscribe`: names, or none at all.
pub open spec fn unsubscribe_args(args: Seq<FrameView>) -> Result<CommandView, ParseFault> {
    match texts_of(args) {
        Err(f) => Err(f),
        Ok(names) => Ok(CommandView::Unsubscribe(names)),
    }
}

/// The command that `name`, already in lower case, and its arguments
/// denote. Every known command must use up its arguments; an unknown one
/// keeps its name and its arguments are not looked at.
pub open spec fn command_of(name: Seq<char>, args: Seq<FrameView>) -> Result<CommandView, ParseFault> {
    if name == "get"@ {
        finished(first_one(args), args.skip(1))
    } else if name == "set"@ {
        finished(first_two(args, true), args.skip(2))
    } else if name == "publish"@ {
        finished(first_two(args, false), args.skip(2))
    } else if name == "subscribe"@ {
        subscribe_args(args)
    } else if name == "unsubscribe"@ {
        unsubscribe_args(args)
    } else {
        Ok(CommandView::Unknown(name))
    }
}

/// What `str::to_lowercase` returns for the text `s`.
pub uninterp spec fn lowercase(s: Seq<char>) -> Seq<char>;

/// Calls `str::to_lowercase`, which maps each character to its lower-case
/// form by the Unicode tables that the standard library carries.
#[verifier::external_body]
fn to_lowercase(s: &str) -> (r: String)
    ensures
        r@ == lowercase(s@),
{
    s.to_lowercase()
}

/// The command that a frame denotes.
pub open spec fn command_in(f: FrameView) -> Result<CommandView, ParseFault> {
    match f {
        FrameView::Array(v) => if v.len() == 0 {
            Err(ParseFault::EndOfStream)
        } else {
            match string_of(v[0]) {
                Err(f) => Err(f),
                Ok(n) => command_of(lowercase(n), v.drop_first()),
            }
        },
        _ => Err(ParseFault::ExpectedArray(f)),
    }
}

/// The bytes of a text.
pub(crate) fn text_bytes(s: &str) -> (v: Vec<u8>)
    ensures
        v@ == encode_utf8(s@),
{
    slice_to_vec(s.as_bytes())
}

/// Puts `pre` in front of the texts of a successful outcome.
spec fn after_texts(pre: Seq<Seq<char>>, r: Result<Seq<Seq<char>>, ParseFault>) -> Result<
    Seq<Seq<char>>,
    ParseFault,
> {
    match r {
        Ok(rest) => Ok(pre + rest),
        Err(f) => Err(f),
    }
}

/// Reads text arguments until none is left.
fn collect_strings(parse: &mut Parse) -> (r: Result<Vec<String>, ParseError>)
    ensures
        match texts_of(old(parse).rest()) {
            Ok(names) => r is Ok && names_of(r->Ok_0@) == names && final(parse).rest().len() == 0,
            Err(f) => r is Err && r->Err_0.describes(f),
        },
{
    let ghost args = parse.rest();
    let mut channels: Vec<String> = Vec::new();
    proof {
        if texts_of(args) is Ok {
            assert(names_of(channels@) + texts_of(args)->Ok_0 =~= texts_of(args)->Ok_0);
        }
    }
    while !parse.is_empty()
        invariant
            args == old(parse).rest(),
            texts_of(args) == after_texts(names_of(channels@), texts_of(parse.rest())),
        decreases parse.rest().len(),
    {
        let ghost seen = names_of(channels@);
        let ghost left = parse.rest();
        match parse.next_string() {
            Ok(s) => {
                let ghost prev = channels@;
                channels.push(s);
                proof {
                    assert(channels@ =~= prev.push(s));
                    assert(names_of(channels@) =~= seen.push(s@));
                    let rest = texts_of(left.drop_first());
                    if rest is Ok {
                        assert(seen + (seq![s@] + rest->Ok_0) =~= seen.push(s@) + rest->Ok_0);
                    }
                }
            },
            Err(e) => {
                return Err(e);
            },
        }
    }
    proof {
        assert(names_of(channels@) + Seq::<Seq<char>>::empty() =~= names_of(channels@));
    }
    Ok(channels)
}

impl Get {
    pub fn new(key: &str) -> (cmd: Get)
        ensures
            cmd.key@ == key@,
    {
        Get { key: key.to_string() }
    }

    pub fn key(&self) -> (k: &str)
        ensures
            k@ == self.key@,
    {
        self.key.as_str()
    }

    /// Reads the key that follows the command's name.
    pub fn parse_frame(parse: &mut Parse) -> (r: Result<Get, ParseError>)
        ensures
            match first_one(old(parse).rest()) {
                Ok(c) => r is Ok && Command::Get(r->Ok_0)@ == c && final(parse).rest() == old(
                    parse,
                ).rest().skip(1),
                Err(f) => r is Err && r->Err_0.describes(f),
            },
    {
        match parse.next_string() {
            Ok(key) => Ok(Get { key }),
            Err(e) => Err(e),
        }
    }

    /// The frame that asks a server for this key.
    pub fn into_frame(self) -> (f: Frame)
        ensures
            f@ == FrameView::Array(seq![bulk_text("get"@), bulk_text(self.key@)]),
    {
        let mut frame = Frame::array();
        frame.push_bulk(text_bytes("get"));
        frame.push_bulk(text_bytes(self.key.as_str()));
        assert(frame@->Array_0 =~= seq![bulk_text("get"@), bulk_text(self.key@)]);
        frame
    }
}

impl SetValue {
    pub fn new(key: &str, value: Vec<u8>, expire: Option<u64>) -> (cmd: SetValue)
        ensures
            cmd.key@ == key@,
            cmd.value == value,
            cmd.expire == expire,
    {
        SetValue { key: key.to_string(), value, expire }
    }

    pub fn key(&self) -> (k: &str)
        ensures
            k@ == self.key@,
    {
        self.key.as_str()
    }

    /// Reads the key and the value that follow the command's name.
    pub fn parse_frame(parse: &mut Parse) -> (r: Result<SetValue, ParseError>)
        ensures
            match first_two(old(parse).rest(), true) {
                Ok(c) => r is Ok && Command::SetValue(r->Ok_0)@ == c && final(parse).rest() == old(
                    parse,
                ).rest().skip(2),
                Err(f) => r is Err && r->Err_0.describes(f),
            },
    {
        let ghost args = parse.rest();
        let key = match parse.next_string() {
            Ok(key) => key,
            Err(e) => { return Err(e); },
        };
        let value = match parse.next_bytes() {
            Ok(value) => value,
            Err(e) => { return Err(e); },
        };
        assert(parse.rest() =~= args.skip(2));
        Ok(SetValue { key, value, expire: None })
    }

    /// The frame that asks a server to store this value: the name, the key
    /// and the value, followed by `px` and the time to live in milliseconds
    /// where one is set.
    pub fn into_frame(self) -> (f: Frame)
        ensures
            f@ == FrameView::Array(
                match self.expire {
                    None => seq![bulk_text("set"@), bulk_text(self.key@), FrameView::Bulk(self.value@)],
                    Some(ms) => seq![
                        bulk_text("set"@),
                        bulk_text(self.key@),
                        FrameView::Bulk(self.value@),
                        bulk_text("px"@),
                        FrameView::Integer(ms),
                    ],
                },
            ),
    {
        let mut frame = Frame::array();
        frame.push_bulk(text_bytes("set"));
        frame.push_bulk(text_bytes(self.key.as_str()));
        frame.push_bulk(self.value);
        match self.expire {
            None => {
                assert(frame@->Array_0 =~= seq![
                    bulk_text("set"@),
                    bulk_text(self.key@),
                    FrameView::Bulk(self.value@),
                ]);
            },
            Some(ms) => {
                frame.push_bulk(text_bytes("px"));
                frame.push_int(ms);
                assert(frame@->Array_0 =~= seq![
                    bulk_text("set"@),
                    bulk_text(self.key@),
                    FrameView::Bulk(self.value@),
                    bulk_text("px"@),
                    FrameView::Integer(ms),
                ]);
            },
        }
        frame
    }
}

impl Publish {
    pub fn new(channel: &str, message: Vec<u8>) -> (cmd: Publish)
        ensures
            cmd.channel@ == channel@,
            cmd.message == message,
    {
        Publish { channel: channel.to_string(), message }
    }

    /// Reads the channel and the message that follow the command's name.
    pub fn parse_frames(parse: &mut Parse) -> (r: Result<Publish, ParseError>)
        ensures
            match first_two(old(parse).rest(), false) {
                Ok(c) => r is Ok && Command::Publish(r->Ok_0)@ == c && final(parse).rest() == old(
                    parse,
                ).rest().skip(2),
                Err(f) => r is Err && r->Err_0.describes(f),
            },
    {
        let ghost args = parse.rest();
        let channel = match parse.next_string() {
            Ok(channel) => channel,
            Err(e) => { return Err(e); },
        };
        let message = match parse.next_bytes() {
            Ok(message) => message,
            Err(e) => { return Err(e); },
        };
        assert(parse.rest() =~= args.skip(2));
        Ok(Publish { channel, message })
    }

    /// The frame that asks a server to publish this message.
    pub fn into_frame(self) -> (f: Frame)
        ensures
            f@ == FrameView::Array(
                seq![bulk_text("publish"@), bulk_text(self.channel@), FrameView::Bulk(self.message@)],
            ),
    {
        let mut frame = Frame::array();
        frame.push_bulk(text_bytes("publish"));
        frame.push_bulk(text_bytes(self.channel.as_str()));
        frame.push_bulk(self.message);
        assert(frame@->Array_0 =~= seq![
            bulk_text("publish"@),
            bulk_text(self.channel@),
            FrameView::Bulk(self.message@),
        ]);
        frame
    }
}

/// The frame that starts with `name` and goes on with one bulk frame for
/// each channel.
fn named_list(name: &str, channels: &Vec<String>) -> (f: Frame)
    ensures
        f@ == FrameView::Array(seq![bulk_text(name@)] + bulk_names(names_of(channels@))),
{
    let mut frame = Frame::array();
    frame.push_bulk(text_bytes(name));
    let mut i: usize = 0;
    assert(frame@->Array_0 =~= seq![bulk_text(name@)] + bulk_names(names_of(channels@)).take(0));
    while i < channels.len()
        invariant
            i <= channels.len(),
            frame@ is Array,
            frame@->Array_0 == seq![bulk_text(name@)] + bulk_names(names_of(channels@)).take(i as int),
        decreases channels.len() - i,
    {
        let ghost so_far = frame@->Array_0;
        frame.push_bulk(text_bytes(channels[i].as_str()));
        i = i + 1;
        assert(frame@->Array_0 =~= seq![bulk_text(name@)] + bulk_names(names_of(channels@)).take(
            i as int,
        ));
    }
    assert(bulk_names(names_of(channels@)).take(i as int) =~= bulk_names(names_of(channels@)));
    frame
}

impl Subscribe {
    pub fn new(channels: Vec<String>) -> (cmd: Subscribe)
        ensures
            cmd.channels == channels,
    {
        Subscribe { channels }
    }

    /// Reads the channel names that follow the command's name: one at
    /// least, and nothing but names.
    pub fn parse_frames(parse: &mut Parse) -> (r: Result<Subscribe, ParseError>)
        ensures
            match subscribe_args(old(parse).rest()) {
                Ok(c) => r is Ok && Command::Subscribe(r->Ok_0)@ == c && final(parse).rest().len() == 0,
                Err(f) => r is Err && r->Err_0.describes(f),
            },
    {
        if parse.is_empty() {
            return Err(ParseError::EndOfStream);
        }
        match collect_strings(parse) {
            Ok(channels) => Ok(Subscribe { channels }),
            Err(e) => Err(e),
        }
    }

    /// The frame that asks a server for these subscriptions.
    pub fn into_frame(self) -> (f: Frame)
        ensures
            f@ == FrameView::Array(seq![bulk_text("subscribe"@)] + bulk_names(names_of(self.channels@))),
    {
        named_list("subscribe", &self.channels)
    }
}

impl Unsubscribe {
    pub fn new(channels: &[String]) -> (cmd: Unsubscribe)
        ensures
            names_of(cmd.channels@) == names_of(channels@),
    {
        let mut out: Vec<String> = Vec::new();
        let mut i: usize = 0;
        while i < channels.len()
            invariant
                i <= channels.len(),
                names_of(out@) == names_of(channels@).take(i as int),
            decreases channels.len() - i,
        {
            let ghost prev = out@;
            let name = channels[i].clone();
            assert(name@ == channels@[i as int]@);
            out.push(name);
            assert(out@ =~= prev.push(name));
            assert(names_of(out@) =~= names_of(prev).push(name@));
            i = i + 1;
            assert(names_of(channels@).take(i as int) =~= names_of(channels@).take(i - 1).push(
                channels@[i - 1]@,
            ));
            assert(names_of(out@) =~= names_of(channels@).take(i as int));
        }
        assert(names_of(channels@).take(i as int) =~= names_of(channels@));
        Unsubscribe { channels: out }
    }

    /// Reads the channel names that follow the command's name, none
    /// included.
    pub fn parse_frames(parse: &mut Parse) -> (r: Result<Unsubscribe, ParseError>)
        ensures
            match unsubscribe_args(old(parse).rest()) {
                Ok(c) => r is Ok && Command::Unsubscribe(r->Ok_0)@ == c && final(parse).rest().len() == 0,
                Err(f) => r is Err && r->Err_0.describes(f),
            },
    {
        match collect_strings(parse) {
            Ok(channels) => Ok(Unsubscribe { channels }),
            Err(e) => Err(e),
        }
    }

    /// The frame that asks a server to end these subscriptions.
    pub fn into_frame(self) -> (f: Frame)
        ensures
            f@ == FrameView::Array(
                seq![bulk_text("unsubscribe"@)] + bulk_names(names_of(self.channels@)),
            ),
    {
        named_list("unsubscribe", &self.channels)
    }
}

/// The text of the error that answers an unknown command.
pub open spec fn unknown_message(name: Seq<char>) -> Seq<char> {
    "ERR unknown command '"@ + name + "'"@
}

impl Unknown {
    pub fn new(key: &str) -> (cmd: Unknown)
        ensures
            cmd.command_name@ == key@,
    {
        Unknown { command_name: key.to_string() }
    }

    pub fn get_name(&self) -> (k: &str)
        ensures
            k@ == self.command_name@,
    {
        self.command_name.as_str()
    }

    /// The error frame that tells the client its command is not known.
    pub fn response(&self) -> (f: Frame)
        ensures
            f@ == FrameView::Error(unknown_message(self.command_name@)),
    {
        let text = "ERR unknown command '".to_string().concat(self.command_name.as_str()).concat("'");
        Frame::Error(text)
    }
}

impl Command {
    /// The command that `name` and the arguments left in `parse` denote.
    /// `name` is expected in lower case.
    pub fn from_name(name: String, parse: &mut Parse) -> (r: Result<Command, ParseError>)
        ensures
            match command_of(name@, old(parse).rest()) {
                Ok(c) => r is Ok && r->Ok_0@ == c,
                Err(f) => r is Err && r->Err_0.describes(f),
            },
    {
        let ghost args = parse.rest();
        let command = if name == "get".to_string() {
            match Get::parse_frame(parse) {
                Ok(c) => Command::Get(c),
                Err(e) => { return Err(e); },
            }
        } else if name == "set".to_string() {
            match SetValue::parse_frame(parse) {
                Ok(c) => Command::SetValue(c),
                Err(e) => { return Err(e); },
            }
        } else if name == "publish".to_string() {
            match Publish::parse_frames(parse) {
                Ok(c) => Command::Publish(c),
                Err(e) => { return Err(e); },
            }
        } else if name == "subscribe".to_string() {
            match Subscribe::parse_frames(parse) {
                Ok(c) => Command::Subscribe(c),
                Err(e) => { return Err(e); },
            }
        } else if name == "unsubscribe".to_string() {
            match Unsubscribe::parse_frames(parse) {
                Ok(c) => Command::Unsubscribe(c),
                Err(e) => { return Err(e); },
            }
        } else {
            return Ok(Command::Unknown(Unknown { command_name: name }));
        };
        match parse.finish() {
            Ok(()) => Ok(command),
            Err(e) => Err(e),
        }
    }

    /// The command that `frame` denotes. The name of the command is matched
    /// without regard to case.
    pub fn from_frame(frame: Frame) -> (r: Result<Command, ParseError>)
        ensures
            match command_in(frame@) {
                Ok(c) => r is Ok && r->Ok_0@ == c,
                Err(f) => r is Err && r->Err_0.describes(f),
            },
    {
        let mut parse = match Parse::new(frame) {
            Ok(p) => p,
            Err(e) => { return Err(e); },
        };
        let name = match parse.next_string() {
            Ok(s) => s,
            Err(e) => { return Err(e); },
        };
        Command::from_name(to_lowercase(name.as_str()), &mut parse)
    }

    /// The name by which this command goes.
    pub fn get_name(&self) -> (name: &str)
        ensures
            name@ == name_of(self@),
    {
        match self {
            Command::Get(_) => "get",
            Command::SetValue(_) => "set",
            Command::Publish(_) => "publish",
            Command::Subscribe(_) => "subscribe",
            Command::Unsubscribe(_) => "unsubscribe",
            Command::Unknown(cmd) => cmd.get_name(),
        }
    }
}

} // verus!
