//! A real-time pub/sub event broker over bidirectional socket connections.
//!
//! Clients connect, subscribe to named topics, and receive pushed events when
//! a matching topic is broadcast; they may also send named commands that are
//! routed to registered handlers by pattern-matching the command name.
//!
//! The crate holds the broker's logic: the session/subscription registry, the
//! handler-routing table, and the per-connection dispatch state machine. The
//! transport itself (socket handshake, frame I/O) is an external collaborator:
//! the registry stores its handles opaquely and the dispatch functions decide,
//! for each inbound frame, what the embedding loop should do next.

pub mod client;
pub mod event;
pub mod handler;
pub mod lifecycle;
pub mod server;

pub use client::Client;
pub use event::Event;
pub use event::Payload;
pub use handler::Handlers;
pub use handler::Matcher;
pub use handler::Route;
pub use lifecycle::Action;
pub use lifecycle::Frame;
pub use lifecycle::LifecycleState;
pub use server::Server;
