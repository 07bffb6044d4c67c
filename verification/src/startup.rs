//! From a parsed configuration to a router, and the decisions around it:
//! which configuration to load, and whether to serve once it is valid.

use crate::error::DrouteError;
use crate::router::{rule_views, table_accepted, table_rejects_with, Router, Rule};
use crate::topology::{accepted, rejects_with};
use crate::upstream::ParsedUpstream;
use crate::upstreams::{definitions_of, topology_of, Upstreams};
use vstd::prelude::*;

verus! {

/// How much the server logs.
#[derive(Debug, Clone, Copy, PartialEq, Eq, Structural)]
pub enum Verbosity {
    Off,
    Error,
    Warn,
    Info,
    Debug,
    Trace,
}

/// A configuration, parsed.
#[derive(Debug, Clone, PartialEq, Eq)]
pub struct Parsed {
    /// The socket address to listen on, as the configuration writes it.
    pub address: String,
    /// How much to log.
    pub verbosity: Verbosity,
    /// How many queries are let in per second; more than none.
    pub ratelimit: u32,
    /// How many responses the cache of each leaf may hold.
    pub cache_size: usize,
    /// The upstreams.
    pub upstreams: Vec<ParsedUpstream>,
    /// The rule table.
    pub table: Vec<Rule>,
}

/// Builds what the server runs on: the router over the configuration's
/// upstreams and table, with the address, the verbosity and the rate limit
/// as the configuration gives them. The upstreams are validated first, then
/// the table.
pub fn init(p: Parsed) -> (r: Result<(Router, String, Verbosity, u32), DrouteError>)
    requires
        p.ratelimit > 0,
    ensures
        match r {
            Ok((router, address, verbosity, ratelimit)) => {
                let defs = definitions_of(p.upstreams@, p.cache_size);
                &&& router.wf()
                &&& router.upstreams().defs() == defs
                &&& router.rules() == rule_views(p.table@)
                &&& accepted(topology_of(defs))
                &&& table_accepted(rule_views(p.table@), topology_of(defs))
                &&& address == p.address
                &&& verbosity == p.verbosity
                &&& ratelimit == p.ratelimit
                &&& ratelimit > 0
            },
            Err(e) => {
                let t = topology_of(definitions_of(p.upstreams@, p.cache_size));
                if accepted(t) {
                    table_rejects_with(rule_views(p.table@), t, e@)
                } else {
                    e matches DrouteError::Upstream(u) && rejects_with(t, u@)
                }
            },
        },
{
    let upstreams = match Upstreams::with_parsed(p.upstreams, p.cache_size) {
        Ok(upstreams) => upstreams,
        Err(e) => {
            proof {
                crate::topology::lemma_verdict_is_decided(
                    topology_of(definitions_of(p.upstreams@, p.cache_size)),
                    e@,
                    e@,
                );
            }
            return Err(DrouteError::Upstream(e));
        },
    };
    match Router::new(p.table, upstreams) {
        Ok(router) => Ok((router, p.address, p.verbosity, p.ratelimit)),
        Err(e) => Err(e),
    }
}

/// What came of opening and reading a configuration file.
#[derive(Debug, Clone, PartialEq, Eq)]
pub enum Loaded {
    /// The file was read; this is its text.
    Read(String),
    /// There is no such file.
    NotFound,
    /// The file is there and could not be opened.
    OpenFailed,
    /// The file was opened and could not be read.
    ReadFailed,
}

/// Which configuration the server starts from.
#[derive(Debug, Clone, PartialEq, Eq)]
pub enum ConfigPlan {
    /// This text, read from the file given on the command line.
    Specified(String),
    /// This text, read from `config.yaml` in the working directory.
    Found(String),
    /// The configuration compiled into the program.
    Builtin,
    /// None: the file given on the command line could not be opened.
    OpenSpecifiedFailed,
    /// None: the file given on the command line could not be read.
    ReadSpecifiedFailed,
    /// None: `config.yaml` is there and could not be opened.
    OpenFoundFailed,
    /// None: `config.yaml` could not be read.
    ReadFoundFailed,
}

/// Says which configuration to start from. `specified` tells whether a
/// file was given on the command line, `loaded` what came of loading that
/// file, or `config.yaml` in the working directory where none was given. A
/// file that was given must load. Without one, `config.yaml` is used where
/// it is there, and the built-in configuration where it is not.
pub fn config_plan(specified: bool, loaded: Loaded) -> (plan: ConfigPlan)
    ensures
        plan == (match loaded {
            Loaded::Read(text) => if specified {
                ConfigPlan::Specified(text)
            } else {
                ConfigPlan::Found(text)
            },
            Loaded::NotFound => if specified {
                ConfigPlan::OpenSpecifiedFailed
            } else {
                ConfigPlan::Builtin
            },
            Loaded::OpenFailed => if specified {
                ConfigPlan::OpenSpecifiedFailed
            } else {
                ConfigPlan::OpenFoundFailed
            },
            Loaded::ReadFailed => if specified {
                ConfigPlan::ReadSpecifiedFailed
            } else {
                ConfigPlan::ReadFoundFailed
            },
        }),
{
    match loaded {
        Loaded::Read(text) => {
            if specified {
                ConfigPlan::Specified(text)
            } else {
                ConfigPlan::Found(text)
            }
        },
        Loaded::NotFound => {
            if specified {
                ConfigPlan::OpenSpecifiedFailed
            } else {
                ConfigPlan::Builtin
            }
        },
        Loaded::OpenFailed => {
            if specified {
                ConfigPlan::OpenSpecifiedFailed
            } else {
                ConfigPlan::OpenFoundFailed
            }
        },
        Loaded::ReadFailed => {
            if specified {
                ConfigPlan::ReadSpecifiedFailed
            } else {
                ConfigPlan::ReadFoundFailed
            }
        },
    }
}

/// What the program does once the configuration has been looked at.
#[derive(Debug, Clone, Copy, PartialEq, Eq, Structural)]
pub enum Startup {
    /// Report that the configuration is valid and exit with this code,
    /// without binding the socket.
    ReportValid(u8),
    /// Report what is wrong with the configuration and exit with this code,
    /// without binding the socket.
    ReportInvalid(u8),
    /// Bind the socket and serve.
    Serve,
}

/// Says what follows the building of the router. `valid` tells whether it
/// was built, `validate` whether the program was asked only to validate.
/// The socket is bound only for a valid configuration that is to be served;
/// the exit code is 0 exactly for a valid configuration.
pub fn after_init(validate: bool, valid: bool) -> (next: Startup)
    ensures
        next == (if !valid {
            Startup::ReportInvalid(1)
        } else if validate {
            Startup::ReportValid(0)
        } else {
            Startup::Serve
        }),
{
    if !valid {
        Startup::ReportInvalid(1)
    } else if validate {
        Startup::ReportValid(0)
    } else {
        Startup::Serve
    }
}

} // verus!
