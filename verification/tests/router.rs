use droute::error::{DrouteError, UpstreamError};
use droute::message::{Message, Question};
use droute::router::{name_in_domain, Matcher, Router, Rule};
use droute::upstream::{ClientConfig, Leaf, Transport, Upstream};
use droute::upstreams::{Plan, Upstreams};

fn label(s: &str) -> String {
    s.to_string()
}

fn leaf_config(addr: &str) -> Leaf {
    Leaf {
        client: ClientConfig {
            transport: Transport::Tls,
            addr: addr.to_string(),
            name: "dns.example".to_string(),
            no_sni: false,
            timeout: 3,
            max_ttl: 3600,
            negative_ttl: 30,
        },
        cache_size: 32,
    }
}

fn registry() -> Upstreams {
    Upstreams::new(vec![
        (label("domestic"), Upstream::Leaf(leaf_config("192.0.2.1:853"))),
        (label("secure"), Upstream::Hybrid(vec![label("one"), label("two")])),
        (label("one"), Upstream::Leaf(leaf_config("192.0.2.2:853"))),
        (label("two"), Upstream::Leaf(leaf_config("192.0.2.3:853"))),
    ])
    .unwrap()
}

fn query(name: &str, qtype: u16) -> Message {
    Message {
        id: 7,
        flags: 0x0100,
        question: Question { name: name.as_bytes().to_vec(), qtype, qclass: 1 },
        answer_ttls: vec![],
        soa_minimum: None,
        sections: vec![],
    }
}

fn rule(matcher: Matcher, upstream: Option<&str>) -> Rule {
    Rule { matcher, upstream: upstream.map(|l| l.to_string()) }
}

fn error_of(r: Result<Router, DrouteError>) -> DrouteError {
    match r {
        Ok(_) => panic!("the table was accepted"),
        Err(e) => e,
    }
}

#[test]
fn first_matching_rule_wins() {
    let router = Router::new(
        vec![
            rule(Matcher::Domain(b"example.cn".to_vec()), Some("domestic")),
            rule(Matcher::QueryType(28), Some("one")),
            rule(Matcher::Domain(b"example.cn".to_vec()), Some("two")),
            rule(Matcher::Any, Some("secure")),
        ],
        registry(),
    )
    .unwrap();
    assert_eq!(router.select(&query("www.example.cn", 28)), (0, &label("domestic")));
    assert_eq!(router.select(&query("www.example.com", 28)), (1, &label("one")));
    assert_eq!(router.select(&query("www.example.com", 1)), (3, &label("secure")));
}

#[test]
fn rule_without_upstream_defers_to_the_next() {
    let router = Router::new(
        vec![
            rule(Matcher::QueryType(1), None),
            rule(Matcher::QueryType(1), Some("one")),
            rule(Matcher::Any, Some("two")),
        ],
        registry(),
    )
    .unwrap();
    assert_eq!(router.select(&query("example.com", 1)), (1, &label("one")));
    assert_eq!(router.select(&query("example.com", 16)), (2, &label("two")));
}

#[test]
fn table_without_default_is_invalid() {
    assert_eq!(error_of(Router::new(vec![], registry())), DrouteError::InvalidRule);
    assert_eq!(
        error_of(Router::new(vec![rule(Matcher::QueryType(1), Some("one"))], registry())),
        DrouteError::InvalidRule
    );
    assert_eq!(
        error_of(Router::new(vec![rule(Matcher::Any, None)], registry())),
        DrouteError::InvalidRule
    );
    assert_eq!(
        error_of(Router::new(
            vec![rule(Matcher::Any, Some("one")), rule(Matcher::QueryType(1), Some("nowhere"))],
            registry()
        )),
        DrouteError::InvalidRule
    );
}

#[test]
fn rule_naming_an_unknown_upstream_is_rejected() {
    let r = Router::new(
        vec![
            rule(Matcher::QueryType(1), Some("one")),
            rule(Matcher::QueryType(28), Some("three")),
            rule(Matcher::QueryType(16), Some("four")),
            rule(Matcher::Any, Some("secure")),
        ],
        registry(),
    );
    assert_eq!(error_of(r), DrouteError::Upstream(UpstreamError::MissingTag(label("three"))));
    let r = Router::new(vec![rule(Matcher::Any, Some("default"))], registry());
    assert_eq!(error_of(r), DrouteError::Upstream(UpstreamError::MissingTag(label("default"))));
}

#[test]
fn router_keeps_its_registry() {
    let router = Router::new(vec![rule(Matcher::Any, Some("secure"))], registry()).unwrap();
    assert_eq!(router.registry().len(), 4);
    let target = router.select(&query("example.com", 1)).1.clone();
    assert_eq!(
        router.registry().plan(&target),
        Plan::Race(&vec![label("one"), label("two")])
    );
    assert_eq!(router.registry().plan(&label("one")), Plan::Ask(&leaf_config("192.0.2.2:853")));
    assert_eq!(
        router.registry().entry_at(1),
        Some((&label("secure"), &Upstream::Hybrid(vec![label("one"), label("two")])))
    );
    assert_eq!(router.registry().entry_at(4), None);
}

#[test]
fn leaf_gets_a_cache_of_its_own_settings() {
    let leaf = leaf_config("192.0.2.2:853");
    let mut cache = leaf.cache();
    assert_eq!(cache.len(), 0);
    let q = query("example.com", 1);
    let r = Message { answer_ttls: vec![7200], sections: vec![1, 2], ..q.clone() };
    cache.store(&q, &r, 0);
    // The leaf's maximum is 3600 seconds.
    assert!(cache.lookup(&q, 3599).is_some());
    assert_eq!(cache.lookup(&q, 3600), None);
    let nothing = Message { sections: vec![3], ..q.clone() };
    cache.store(&q, &nothing, 0);
    // The leaf serves a response without answers for 30 seconds.
    assert!(cache.lookup(&q, 29).is_some());
    assert_eq!(cache.lookup(&q, 30), None);
}

#[test]
fn domain_matches_itself_and_names_under_it() {
    let domain = b"example.com".to_vec();
    assert!(name_in_domain(&b"example.com".to_vec(), &domain));
    assert!(name_in_domain(&b"www.example.com".to_vec(), &domain));
    assert!(name_in_domain(&b"a.b.EXAMPLE.Com".to_vec(), &domain));
    assert!(name_in_domain(&b"www.example.com".to_vec(), &b"EXAMPLE.COM".to_vec()));
    assert!(!name_in_domain(&b"badexample.com".to_vec(), &domain));
    assert!(!name_in_domain(&b"example.org".to_vec(), &domain));
    assert!(!name_in_domain(&b"com".to_vec(), &domain));
    assert!(!name_in_domain(&b"example.com.evil".to_vec(), &domain));
    assert!(name_in_domain(&b"anything.at.all".to_vec(), &vec![]));
    assert!(name_in_domain(&vec![], &vec![]));
    assert!(!name_in_domain(&vec![], &domain));
}

#[test]
fn matchers_read_the_question_only() {
    let q = query("mail.example.com", 15);
    assert!(Matcher::Any.is_match(&q));
    assert!(Matcher::QueryType(15).is_match(&q));
    assert!(!Matcher::QueryType(1).is_match(&q));
    assert!(Matcher::Domain(b"example.com".to_vec()).is_match(&q));
    assert!(!Matcher::Domain(b"example.net".to_vec()).is_match(&q));
}
