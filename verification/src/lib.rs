//! An identifier-issuing service with a live event feed.
//!
//! A request names a logical prefix and an entity. The service maps the prefix
//! to its canonical code, appends a random suffix and answers with the
//! identifier. Every completed issuance is published on an event bus as two
//! log messages, the request and then the response, and every subscriber of
//! the bus receives the messages published after it subscribed, in publish
//! order.

pub mod bus;
pub mod identifier;
pub mod laws;
pub mod messages;
pub mod prefix_mappings;
pub mod server;
pub mod session;
