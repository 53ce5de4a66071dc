//! An in-memory key-value store that speaks a Redis-like wire protocol,
//! with publish/subscribe messaging: the wire codec, the command model, the
//! store and the state machines of a connection, each with its contract.

use vstd::prelude::*;

pub mod apply;
pub mod cmd;
pub mod connection;
pub mod db;
pub mod decimal;
pub mod display;
pub mod encode;
pub mod feed;
pub mod frame;
pub mod order;
pub mod parse;
pub mod roundtrip;
pub mod server;
pub mod subscribe;

pub use cmd::Command;
pub use connection::Connection;
pub use db::Db;
pub use frame::Frame;

verus! {

/// The port on which the server listens unless told otherwise.
pub const DEFAULT_PORT: &'static str = "6379";

} // verus!
