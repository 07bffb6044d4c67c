//! The routing and resolution engine of a programmable DNS front-end.
//!
//! A server built on this library listens for DNS queries, picks for each
//! one an upstream by an ordered rule table, resolves it there and sends
//! the response back. The library holds the rules of that, verified:
//!
//! - [`upstreams`]: the registry of upstreams, leaves and hybrids of other
//!   upstreams, with its validation; [`topology`] is the graph it is stated
//!   over, and [`collections`] the hash collections it looks labels up in.
//! - [`race`]: how a hybrid settles on the first success of its members.
//! - [`cache`]: the response cache in front of a leaf, over the messages of
//!   [`message`].
//! - [`router`]: the rule table that selects an upstream per query.
//! - [`server`] and [`startup`]: what the accept loop, a worker, the
//!   shutdown and the start of the program decide.
//!
//! Sockets, clocks, tasks and the clients that speak to resolvers are the
//! caller's: the library takes what they observed and says what follows.

pub mod cache;
pub mod collections;
pub mod error;
pub mod message;
pub mod race;
pub mod router;
pub mod server;
pub mod startup;
pub mod topology;
pub mod upstream;
pub mod upstreams;

pub use crate::error::{DrouteError, UpstreamError};
pub use crate::router::Router;
pub use crate::upstream::Upstream;
pub use crate::upstreams::Upstreams;
