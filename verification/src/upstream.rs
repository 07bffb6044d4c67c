//! One upstream: a leaf with its client settings, or a hybrid of other upstreams.

use crate::cache::ResponseCache;
use crate::topology::Shape;
use vstd::prelude::*;

verus! {

/// How a leaf reaches its resolver.
#[derive(Debug, Clone, Copy, PartialEq, Eq)]
pub enum Transport {
    /// Plain DNS over UDP.
    Udp,
    /// DNS over TLS.
    Tls,
    /// DNS over HTTPS.
    Https,
}

/// The settings of a leaf's client pool.
#[derive(Debug, Clone, PartialEq, Eq)]
pub struct ClientConfig {
    /// The transport to speak.
    pub transport: Transport,
    /// The resolver's socket address, as written in the configuration.
    pub addr: String,
    /// The resolver's server name; empty for UDP.
    pub name: String,
    /// Whether to leave the server name out of the TLS handshake.
    pub no_sni: bool,
    /// Seconds to wait for an answer.
    pub timeout: u64,
    /// The longest that a response of the resolver is served from the
    /// cache, in seconds.
    pub max_ttl: u32,
    /// For how many seconds a response without answers is served from the
    /// cache where it says nothing itself.
    pub negative_ttl: u32,
}

/// A leaf upstream: a client pool with a response cache in front.
#[derive(Debug, Clone, PartialEq, Eq)]
pub struct Leaf {
    /// The settings of the client pool.
    pub client: ClientConfig,
    /// How many responses the cache in front of the pool may hold.
    pub cache_size: usize,
}

/// An upstream, without its label.
#[derive(Debug, Clone, PartialEq, Eq)]
pub enum Upstream {
    /// Resolves by racing these members, named by label.
    Hybrid(Vec<String>),
    /// Resolves by asking one resolver.
    Leaf(Leaf),
}

/// How a configuration describes an upstream's way of resolving.
#[derive(Debug, Clone, PartialEq, Eq)]
pub enum ParsedMethod {
    /// A hybrid, with the labels under its `tag` list.
    Hybrid(Vec<String>),
    /// A leaf, with its transport's fields.
    Client(ClientConfig),
}

/// An upstream as a configuration describes it.
#[derive(Debug, Clone, PartialEq, Eq)]
pub struct ParsedUpstream {
    /// The label that the rest of the configuration refers to it by.
    pub tag: String,
    /// How it resolves.
    pub method: ParsedMethod,
}

/// Labels as contracts see them: each by its characters.
pub open spec fn label_views(labels: Seq<String>) -> Seq<Seq<char>> {
    labels.map_values(|l: String| l@)
}

impl Leaf {
    /// A new, empty cache to stand in front of the leaf.
    pub fn cache(&self) -> (cache: ResponseCache)
        ensures
            cache.wf(),
            cache@.len() == 0,
            cache.capacity() == self.cache_size,
            cache.max_ttl() == self.client.max_ttl,
            cache.negative_ttl() == self.client.negative_ttl,
    {
        ResponseCache::new(self.cache_size, self.client.max_ttl, self.client.negative_ttl)
    }
}

impl ParsedMethod {
    /// What validation reads of the method.
    pub open spec fn shape(&self) -> Shape {
        match *self {
            ParsedMethod::Hybrid(ms) => Shape::Hybrid(label_views(ms@)),
            ParsedMethod::Client(_) => Shape::Leaf,
        }
    }
}

impl Upstream {
    /// What validation reads of the upstream.
    pub open spec fn shape(&self) -> Shape {
        match *self {
            Upstream::Hybrid(ms) => Shape::Hybrid(label_views(ms@)),
            Upstream::Leaf(_) => Shape::Leaf,
        }
    }

    /// The upstream that `method` describes, a leaf getting a cache of `size` responses.
    pub open spec fn of_parsed(method: ParsedMethod, size: usize) -> Upstream {
        match method {
            ParsedMethod::Hybrid(ms) => Upstream::Hybrid(ms),
            ParsedMethod::Client(client) => Upstream::Leaf(Leaf { client, cache_size: size }),
        }
    }

    /// Builds the upstream that a configuration describes. A leaf gets a
    /// cache of `size` responses; a hybrid keeps its members in their order.
    pub fn with_parsed(u: ParsedUpstream, size: usize) -> (r: Upstream)
        ensures
            r == Upstream::of_parsed(u.method, size),
    {
        match u.method {
            ParsedMethod::Hybrid(ms) => Upstream::Hybrid(ms),
            ParsedMethod::Client(client) => Upstream::Leaf(Leaf { client, cache_size: size }),
        }
    }

    /// The members of a hybrid; `None` for a leaf.
    pub fn try_hybrid(&self) -> (r: Option<&Vec<String>>)
        ensures
            match r {
                Some(ms) => *self == Upstream::Hybrid(*ms),
                None => self is Leaf,
            },
    {
        match self {
            Upstream::Hybrid(ms) => Some(ms),
            Upstream::Leaf(_) => None,
        }
    }
}

} // verus!
