//! The decisions of a proxy between local socket clients and a message bus.
//!
//! Clients connect over a Unix-domain socket, publish to the bus through the
//! proxy, and receive what the bus carries for them. Each connection is bound to
//! exactly one principal for its whole life: what it sends goes out under that
//! principal, and it receives only messages stamped with it (plus system events),
//! and a chat response only when it is on that conversation.
//!
//! Nothing in this crate does I/O. [`proxy::Proxy`] is the main loop as a machine
//! that takes the result of one action and returns the next; the same holds of
//! [`framing::FramedStream`] and [`framing::FrameWriter`] for the framing of
//! messages on a byte stream.
//!
//! * [`binding`]: the rule by which a connection binds to a principal.
//! * [`topics`]: the topics clients may publish to, and those that are listened on.
//! * [`session`]: which conversation a message belongs to.
//! * [`ingress`]: what becomes of one message that a client sent.
//! * [`client`]: a connected client, and what holds of it over its life.
//! * [`outbound`]: addressing bus messages and planning their delivery.
//! * [`proxy`], [`proxy_laws`]: the main loop, and what holds of every run of it.
//! * [`trace_laws`]: what the loop asks for, action by action.
//! * [`round_laws`]: what holds of the sends of one round.
//! * [`framing`]: length-prefixed frames.
//! * [`json`]: the calls into `serde_json`, with what is claimed of them.
//! * [`text`]: string comparison, search and formatting.

pub mod binding;
pub mod client;
pub mod framing;
pub mod ingress;
pub mod json;
pub mod outbound;
pub mod proxy;
pub mod proxy_laws;
pub mod round_laws;
pub mod session;
pub mod text;
pub mod topics;
pub mod trace_laws;
