use droute::cache::{least_ttl, ResponseCache};
use droute::error::UpstreamError;
use droute::message::{copy_bytes, same_bytes, Message, Question};

const A: u16 = 1;
const AAAA: u16 = 28;
const IN: u16 = 1;

fn query(id: u16, name: &str, qtype: u16) -> Message {
    Message {
        id,
        flags: 0x0100,
        question: Question { name: name.as_bytes().to_vec(), qtype, qclass: IN },
        answer_ttls: vec![],
        soa_minimum: None,
        sections: vec![],
    }
}

fn response(to: &Message, ttls: &[u32], sections: &[u8]) -> Message {
    Message {
        id: to.id,
        flags: 0x8180,
        question: to.question.clone(),
        answer_ttls: ttls.to_vec(),
        soa_minimum: None,
        sections: sections.to_vec(),
    }
}

fn negative(to: &Message, soa_minimum: Option<u32>) -> Message {
    Message {
        id: to.id,
        flags: 0x8183,
        question: to.question.clone(),
        answer_ttls: vec![],
        soa_minimum,
        sections: vec![0xc0, 0x0c],
    }
}

#[test]
fn two_identical_queries_take_one_upstream_send() {
    let mut cache = ResponseCache::new(8, 3600, 60);
    let mut sends = 0;

    let first = query(0x1111, "example.com", A);
    let answer_one = match cache.lookup(&first, 100) {
        Some(hit) => hit,
        None => {
            sends += 1;
            let from_upstream = response(&first, &[300], &[93, 184, 216, 34]);
            cache.complete(&first, Ok(from_upstream), 100).unwrap()
        }
    };

    let second = query(0x2222, "example.com", A);
    let answer_two = match cache.lookup(&second, 100) {
        Some(hit) => hit,
        None => {
            sends += 1;
            let from_upstream = response(&second, &[300], &[93, 184, 216, 34]);
            cache.complete(&second, Ok(from_upstream), 100).unwrap()
        }
    };

    assert_eq!(sends, 1);
    assert_eq!(answer_one.id, 0x1111);
    assert_eq!(answer_two.id, 0x2222);
    assert_ne!(answer_one.id, answer_two.id);
    assert_eq!(answer_one.sections, answer_two.sections);
    assert_eq!(answer_one.answer_ttls, answer_two.answer_ttls);
    assert_eq!(answer_two.flags, 0x8180);
}

#[test]
fn hit_echoes_the_question_as_the_client_wrote_it() {
    let mut cache = ResponseCache::new(8, 3600, 60);
    let first = query(1, "example.com", A);
    cache.store(&first, &response(&first, &[300], &[1, 2, 3, 4]), 0);
    let second = query(2, "ExAmPlE.CoM", A);
    let hit = cache.lookup(&second, 10).unwrap();
    assert_eq!(hit.id, 2);
    assert_eq!(hit.question.name, b"ExAmPlE.CoM".to_vec());
    assert_eq!(hit.sections, vec![1, 2, 3, 4]);
}

#[test]
fn fingerprint_is_name_in_lower_case_type_and_class() {
    let a = Question { name: b"WWW.Example.COM".to_vec(), qtype: A, qclass: IN };
    let b = Question { name: b"www.example.com".to_vec(), qtype: A, qclass: IN };
    assert!(a.fingerprint().matches(&b.fingerprint()));
    assert_eq!(a.fingerprint(), b.fingerprint());
    let other_type = Question { name: b"www.example.com".to_vec(), qtype: AAAA, qclass: IN };
    assert!(!a.fingerprint().matches(&other_type.fingerprint()));
    let other_class = Question { name: b"www.example.com".to_vec(), qtype: A, qclass: 3 };
    assert!(!a.fingerprint().matches(&other_class.fingerprint()));
    let other_name = Question { name: b"www.example.org".to_vec(), qtype: A, qclass: IN };
    assert!(!a.fingerprint().matches(&other_name.fingerprint()));
    // Only the letters A to Z change; the bytes next to them stay.
    let edges = Question { name: b"@AZ[`az{".to_vec(), qtype: A, qclass: IN };
    let lowered = Question { name: b"@az[`az{".to_vec(), qtype: A, qclass: IN };
    assert_eq!(edges.fingerprint(), lowered.fingerprint());
}

#[test]
fn other_type_is_a_miss() {
    let mut cache = ResponseCache::new(8, 3600, 60);
    let q = query(1, "example.com", A);
    cache.store(&q, &response(&q, &[300], &[1]), 0);
    assert_eq!(cache.lookup(&query(2, "example.com", AAAA), 1), None);
    assert_eq!(cache.len(), 1);
}

#[test]
fn response_is_fresh_until_its_expiry() {
    let mut cache = ResponseCache::new(8, 3600, 60);
    let q = query(1, "example.com", A);
    cache.store(&q, &response(&q, &[30, 20, 40], &[9]), 1000);
    assert!(cache.lookup(&q, 1000).is_some());
    assert!(cache.lookup(&q, 1019).is_some());
    assert_eq!(cache.len(), 1);
    // The shortest TTL is 20: at 1020 the response is stale and leaves.
    assert_eq!(cache.lookup(&q, 1020), None);
    assert_eq!(cache.len(), 0);
    assert_eq!(cache.lookup(&q, 1001), None);
}

#[test]
fn lifetime_is_clamped_by_the_maximum() {
    let q = query(1, "example.com", A);
    let r = response(&q, &[86400], &[9]);
    assert_eq!(r.lifetime(3600, 60), Some(3600));
    assert_eq!(r.lifetime(86400, 60), Some(86400));
    assert_eq!(r.lifetime(86401, 60), Some(86400));
    let mut cache = ResponseCache::new(8, 3600, 60);
    cache.store(&q, &r, 0);
    assert!(cache.lookup(&q, 3599).is_some());
    assert_eq!(cache.lookup(&q, 3600), None);
}

#[test]
fn answer_with_ttl_zero_is_not_cached() {
    let q = query(1, "example.com", A);
    let r = response(&q, &[300, 0, 60], &[9]);
    assert_eq!(r.lifetime(3600, 60), None);
    let mut cache = ResponseCache::new(8, 3600, 60);
    cache.store(&q, &r, 0);
    assert_eq!(cache.len(), 0);
    assert_eq!(cache.lookup(&q, 0), None);
}

#[test]
fn negative_response_lives_by_soa_minimum_or_the_floor() {
    let q = query(1, "nx.example.com", A);
    assert_eq!(negative(&q, Some(900)).lifetime(3600, 60), Some(900));
    assert_eq!(negative(&q, Some(7200)).lifetime(3600, 60), Some(3600));
    assert_eq!(negative(&q, None).lifetime(3600, 60), Some(60));
    assert_eq!(negative(&q, None).lifetime(30, 60), Some(30));
    assert_eq!(negative(&q, Some(0)).lifetime(3600, 60), Some(0));

    let mut cache = ResponseCache::new(8, 3600, 60);
    cache.store(&q, &negative(&q, None), 500);
    assert_eq!(cache.lookup(&q, 559).unwrap().flags, 0x8183);
    assert_eq!(cache.lookup(&q, 560), None);
}

#[test]
fn least_recently_used_leaves_when_the_cache_is_full() {
    let mut cache = ResponseCache::new(2, 3600, 60);
    let a = query(1, "a.example", A);
    let b = query(2, "b.example", A);
    let c = query(3, "c.example", A);
    cache.store(&a, &response(&a, &[300], &[1]), 0);
    cache.store(&b, &response(&b, &[300], &[2]), 1);
    // `a` is used again, so `b` is the least recently used.
    assert!(cache.lookup(&a, 2).is_some());
    cache.store(&c, &response(&c, &[300], &[3]), 3);
    assert_eq!(cache.len(), 2);
    assert_eq!(cache.lookup(&b, 4), None);
    assert_eq!(cache.lookup(&a, 4).unwrap().sections, vec![1]);
    assert_eq!(cache.lookup(&c, 4).unwrap().sections, vec![3]);
}

#[test]
fn storing_again_replaces_the_response() {
    let mut cache = ResponseCache::new(2, 3600, 60);
    let q = query(1, "example.com", A);
    cache.store(&q, &response(&q, &[10], &[1]), 0);
    cache.store(&q, &response(&q, &[100], &[2]), 5);
    assert_eq!(cache.len(), 1);
    let hit = cache.lookup(&q, 50).unwrap();
    assert_eq!(hit.sections, vec![2]);
}

#[test]
fn cache_without_room_holds_nothing() {
    let mut cache = ResponseCache::new(0, 3600, 60);
    let q = query(1, "example.com", A);
    cache.store(&q, &response(&q, &[300], &[1]), 0);
    assert_eq!(cache.len(), 0);
    assert_eq!(cache.lookup(&q, 0), None);
}

#[test]
fn client_error_is_handed_on_and_not_cached() {
    let mut cache = ResponseCache::new(4, 3600, 60);
    let q = query(1, "example.com", A);
    let failed = Err(UpstreamError::ClientError("connection reset".to_string()));
    assert_eq!(
        cache.complete(&q, failed, 0),
        Err(UpstreamError::ClientError("connection reset".to_string()))
    );
    assert_eq!(cache.complete(&q, Err(UpstreamError::Timeout), 0), Err(UpstreamError::Timeout));
    assert_eq!(cache.len(), 0);
    assert_eq!(cache.lookup(&q, 0), None);
}

#[test]
fn expiry_does_not_wrap_at_the_end_of_time() {
    let mut cache = ResponseCache::new(4, 3600, 60);
    let q = query(1, "example.com", A);
    cache.store(&q, &response(&q, &[300], &[1]), u64::MAX - 10);
    assert!(cache.lookup(&q, u64::MAX - 1).is_some());
    assert_eq!(cache.lookup(&q, u64::MAX), None);
}

#[test]
fn least_ttl_is_the_minimum() {
    assert_eq!(least_ttl(&vec![]), 0);
    assert_eq!(least_ttl(&vec![7]), 7);
    assert_eq!(least_ttl(&vec![30, 20, 40]), 20);
    assert_eq!(least_ttl(&vec![5, 5, 9, 1]), 1);
    assert_eq!(least_ttl(&vec![u32::MAX, 3]), 3);
}

#[test]
fn copies_and_comparisons_of_bytes() {
    let bytes = vec![0u8, 1, 2, 255];
    assert_eq!(copy_bytes(&bytes), bytes);
    assert!(same_bytes(&bytes, &vec![0u8, 1, 2, 255]));
    assert!(!same_bytes(&bytes, &vec![0u8, 1, 2]));
    assert!(!same_bytes(&bytes, &vec![0u8, 1, 2, 254]));
    assert!(same_bytes(&vec![], &vec![]));
    let m = response(&query(9, "example.com", A), &[1, 2], &[3, 4]);
    assert_eq!(m.duplicate(), m);
}
