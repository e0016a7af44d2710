//! A blocking, connect-only client for the ZeroMQ Message Transport
//! Protocol (ZMTP 3.0) over TCP.
//!
//! The crate holds the protocol logic: the wire codec (frames, commands,
//! property lists, the fixed greeting), the handshake decisions, multipart
//! message encoding and assembly, and the per-pattern socket behaviour
//! (PULL, PUSH, PUB, SUB, REQ, REP).  Every function here is verified:
//! frames serialize to exactly the bytes the contracts state, parsing is
//! proved to invert serialization, and the REQ/REP send/receive alternation
//! is enforced by the type system.
//!
//! The library performs no I/O itself.  Socket operations are expressed as
//! pure steps: `send` produces the frames to write, `recv` consumes one
//! received frame at a time.  A thin unverified shell owns the TCP
//! connection and drives those steps.

pub mod command;
pub mod endian;
pub mod error;
pub mod frame;
pub mod greeting;
pub mod handshake;
pub mod multipart;
pub mod pub_t;
pub mod pull_t;
pub mod push_t;
pub mod rep_t;
pub mod req_t;
pub mod socket_type;
pub mod sub_t;
pub mod subscription;

pub use error::ZmtpError;
pub use frame::{Command, Frame, FrameBuf, FrameKind, Message, OwnedFrame};
pub use greeting::Greeting;
pub use pub_t::Pub;
pub use pull_t::Pull;
pub use push_t::Push;
pub use rep_t::{Rep, RepPending, RepStep};
pub use req_t::{Req, ReqPending, ReqStep};
pub use socket_type::SocketType;
pub use sub_t::Sub;
