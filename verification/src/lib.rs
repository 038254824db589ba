//! Bookkeeping and wire format for a many-connection epoll experiment:
//! the text protocol (AUTH / TEXT / CLOSE), epoll event descriptors, and the
//! decisions the server and client loops take on each readiness event.

pub mod text;
pub mod protocol;
pub mod event;
pub mod epoll;
pub mod net;
pub mod server;
pub mod client;
