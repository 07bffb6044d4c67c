use droute::error::UpstreamError;
use droute::race::{Race, RaceStep};

fn failed(detail: &str) -> Result<Vec<u8>, UpstreamError> {
    Err(UpstreamError::ClientError(detail.to_string()))
}

#[test]
fn slow_success_beats_fast_error() {
    // The failing member comes back first, after 10 ms; the other after 200 ms.
    let slow_ok: Result<Vec<u8>, UpstreamError> = Ok(vec![0x12, 0x34, 0x81, 0x80]);
    let fast_err = failed("connection refused");
    assert_eq!(Race::settle(vec![fast_err, slow_ok]), Ok(vec![0x12, 0x34, 0x81, 0x80]));
}

#[test]
fn first_success_to_come_back_wins() {
    let r = Race::settle(vec![failed("a"), Ok(vec![1u8]), Ok(vec![2u8]), failed("b")]);
    assert_eq!(r, Ok(vec![1u8]));
}

#[test]
fn all_failures_give_the_last_error() {
    let r = Race::settle(vec![failed("first"), Err(UpstreamError::Timeout), failed("last")]);
    assert_eq!(r, failed("last"));
    let r: Result<Vec<u8>, UpstreamError> = Race::settle(vec![Err(UpstreamError::MalformedResponse)]);
    assert_eq!(r, Err(UpstreamError::MalformedResponse));
}

#[test]
fn race_waits_until_the_last_member_has_failed() {
    let mut race = Race::start(3);
    assert!(!race.is_over());
    assert_eq!(race.report(failed("one")), RaceStep::Wait);
    assert_eq!(race.report(failed("two")), RaceStep::Wait);
    assert!(!race.is_over());
    assert_eq!(race.report(failed("three")), RaceStep::Done(failed("three")));
    assert!(race.is_over());
}

#[test]
fn race_ends_with_the_first_success() {
    let mut race = Race::start(3);
    assert_eq!(race.report(failed("one")), RaceStep::Wait);
    assert_eq!(race.report(Ok(vec![7u8, 7])), RaceStep::Done(Ok(vec![7u8, 7])));
    assert!(race.is_over());
}

#[test]
fn race_of_one_member_answers_as_the_member_does() {
    let mut race = Race::start(1);
    assert_eq!(race.report(Ok(5u32)), RaceStep::Done(Ok(5u32)));
    let mut race = Race::start(1);
    let timed_out: Result<u32, UpstreamError> = Err(UpstreamError::Timeout);
    assert_eq!(race.report(timed_out), RaceStep::Done(Err(UpstreamError::Timeout)));
}
