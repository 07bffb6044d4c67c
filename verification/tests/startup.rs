use droute::error::{DrouteError, UpstreamError};
use droute::router::{Matcher, Rule};
use droute::startup::{after_init, config_plan, init, ConfigPlan, Loaded, Parsed, Startup, Verbosity};
use droute::upstream::{ClientConfig, ParsedMethod, ParsedUpstream, Transport};

fn udp(tag: &str, addr: &str) -> ParsedUpstream {
    ParsedUpstream {
        tag: tag.to_string(),
        method: ParsedMethod::Client(ClientConfig {
            transport: Transport::Udp,
            addr: addr.to_string(),
            name: String::new(),
            no_sni: false,
            timeout: 2,
            max_ttl: 86400,
            negative_ttl: 60,
        }),
    }
}

fn hybrid(tag: &str, members: &[&str]) -> ParsedUpstream {
    ParsedUpstream {
        tag: tag.to_string(),
        method: ParsedMethod::Hybrid(members.iter().map(|m| m.to_string()).collect()),
    }
}

fn parsed(upstreams: Vec<ParsedUpstream>, table: Vec<Rule>) -> Parsed {
    Parsed {
        address: "0.0.0.0:2053".to_string(),
        verbosity: Verbosity::Info,
        ratelimit: 150,
        cache_size: 4096,
        upstreams,
        table,
    }
}

fn default_to(label: &str) -> Rule {
    Rule { matcher: Matcher::Any, upstream: Some(label.to_string()) }
}

fn error_of(p: Parsed) -> DrouteError {
    match init(p) {
        Ok(_) => panic!("the configuration was accepted"),
        Err(e) => e,
    }
}

#[test]
fn valid_configuration_builds_a_router() {
    let p = parsed(
        vec![hybrid("all", &["u1", "u2"]), udp("u1", "1.1.1.1:53"), udp("u2", "8.8.8.8:53")],
        vec![default_to("all")],
    );
    let (router, address, verbosity, ratelimit) = init(p).unwrap();
    assert_eq!(router.registry().len(), 3);
    assert_eq!(address, "0.0.0.0:2053");
    assert_eq!(verbosity, Verbosity::Info);
    assert_eq!(ratelimit, 150);
}

#[test]
fn validate_only_reports_and_does_not_serve() {
    let p = parsed(vec![udp("u1", "1.1.1.1:53")], vec![default_to("u1")]);
    let valid = init(p).is_ok();
    assert!(valid);
    assert_eq!(after_init(true, valid), Startup::ReportValid(0));
    assert_eq!(after_init(false, valid), Startup::Serve);
}

#[test]
fn invalid_configuration_never_serves() {
    let p = parsed(vec![hybrid("h", &[])], vec![default_to("h")]);
    let valid = init(p).is_ok();
    assert!(!valid);
    assert_eq!(after_init(true, valid), Startup::ReportInvalid(1));
    assert_eq!(after_init(false, valid), Startup::ReportInvalid(1));
}

#[test]
fn upstreams_are_validated_before_the_table() {
    let p = parsed(vec![hybrid("a", &["b"]), hybrid("b", &["a"])], vec![]);
    assert_eq!(
        error_of(p),
        DrouteError::Upstream(UpstreamError::HybridRecursion("a".to_string()))
    );
    let p = parsed(vec![udp("u1", "1.1.1.1:53")], vec![]);
    assert_eq!(error_of(p), DrouteError::InvalidRule);
    let p = parsed(vec![udp("u1", "1.1.1.1:53")], vec![default_to("u2")]);
    assert_eq!(error_of(p), DrouteError::Upstream(UpstreamError::MissingTag("u2".to_string())));
}

#[test]
fn specified_file_must_load() {
    let text = "address: 0.0.0.0:53".to_string();
    assert_eq!(config_plan(true, Loaded::Read(text.clone())), ConfigPlan::Specified(text));
    assert_eq!(config_plan(true, Loaded::NotFound), ConfigPlan::OpenSpecifiedFailed);
    assert_eq!(config_plan(true, Loaded::OpenFailed), ConfigPlan::OpenSpecifiedFailed);
    assert_eq!(config_plan(true, Loaded::ReadFailed), ConfigPlan::ReadSpecifiedFailed);
}

#[test]
fn without_a_file_the_working_directory_is_tried_then_the_builtin() {
    let text = "address: 0.0.0.0:53".to_string();
    assert_eq!(config_plan(false, Loaded::Read(text.clone())), ConfigPlan::Found(text));
    assert_eq!(config_plan(false, Loaded::NotFound), ConfigPlan::Builtin);
    assert_eq!(config_plan(false, Loaded::OpenFailed), ConfigPlan::OpenFoundFailed);
    assert_eq!(config_plan(false, Loaded::ReadFailed), ConfigPlan::ReadFoundFailed);
}
