//! How a hybrid settles: its members are asked together, the first success
//! wins, and where all fail the last failure is reported.
//!
//! The members are awaited elsewhere. Each time one of them comes back, the
//! caller reports what it came back with, and the race says whether to go on
//! waiting or what the hybrid answers.

use crate::error::UpstreamError;
use vstd::prelude::*;

verus! {

/// A race among the members of one hybrid for one query.
pub struct Race {
    waiting: usize,
}

/// What to do after a member has come back.
#[derive(Debug, PartialEq, Eq)]
pub enum RaceStep<T> {
    /// Other members are still out: wait for the next one.
    Wait,
    /// The race is over, and this is the hybrid's answer.
    Done(Result<T, UpstreamError>),
}

/// The answer of a hybrid whose members came back with `events`, in this
/// order: the first success, or the last failure where there is no success.
pub open spec fn settles_with<T>(
    events: Seq<Result<T, UpstreamError>>,
    r: Result<T, UpstreamError>,
) -> bool {
    match r {
        Ok(_) => exists|i: int|
            0 <= i < events.len() && (#[trigger] events[i]) == r && forall|j: int|
                0 <= j < i ==> (#[trigger] events[j]) is Err,
        Err(_) => events.len() > 0 && events.last() == r && forall|j: int|
            0 <= j < events.len() ==> (#[trigger] events[j]) is Err,
    }
}

impl Race {
    /// How many members have not come back yet; none once the race is over.
    pub closed spec fn waiting(&self) -> nat {
        self.waiting as nat
    }

    /// The step that follows `outcome` while `waiting` members are out.
    pub open spec fn step_after<T>(waiting: nat, outcome: Result<T, UpstreamError>) -> RaceStep<T> {
        if outcome is Ok || waiting == 1 {
            RaceStep::Done(outcome)
        } else {
            RaceStep::Wait
        }
    }

    /// Starts the race of a hybrid with `members` members.
    pub fn start(members: usize) -> (race: Race)
        requires
            members > 0,
        ensures
            race.waiting() == members,
    {
        Race { waiting: members }
    }

    /// Whether the race is over.
    pub fn is_over(&self) -> (over: bool)
        ensures
            over == (self.waiting() == 0),
    {
        self.waiting == 0
    }

    /// Takes what one more member came back with. A success ends the race
    /// and is the answer, whoever is still out. A failure is the answer only
    /// where it comes from the last member out.
    pub fn report<T>(&mut self, outcome: Result<T, UpstreamError>) -> (step: RaceStep<T>)
        requires
            old(self).waiting() > 0,
        ensures
            step == Race::step_after(old(self).waiting(), outcome),
            final(self).waiting() == (if step is Done {
                0
            } else {
                old(self).waiting() - 1
            }),
    {
        match outcome {
            Ok(payload) => {
                self.waiting = 0;
                RaceStep::Done(Ok(payload))
            },
            Err(e) => {
                self.waiting = self.waiting - 1;
                if self.waiting == 0 {
                    RaceStep::Done(Err(e))
                } else {
                    RaceStep::Wait
                }
            },
        }
    }

    /// The answer of a hybrid whose members came back with `outcomes`, given
    /// in the order in which they came back; members that came back
    /// together stand in the order of the hybrid's member list.
    pub fn settle<T>(outcomes: Vec<Result<T, UpstreamError>>) -> (r: Result<T, UpstreamError>)
        requires
            outcomes.len() > 0,
        ensures
            settles_with(outcomes@, r),
    {
        let ghost events = outcomes@;
        let mut rest = outcomes;
        let mut race = Race::start(rest.len());
        loop
            invariant
                events == outcomes@,
                rest.len() > 0,
                race.waiting() == rest.len(),
                rest.len() <= events.len(),
                rest@ == events.skip(events.len() - rest.len()),
                forall|j: int| 0 <= j < events.len() - rest.len() ==> (#[trigger] events[j]) is Err,
            decreases rest.len(),
        {
            let ghost at = events.len() - rest.len();
            let outcome = rest.remove(0);
            assert(outcome == events[at]);
            assert(rest@ =~= events.skip(at + 1));
            match race.report(outcome) {
                RaceStep::Done(r) => {
                    assert(r == events[at]);
                    assert(r is Err ==> at == events.len() - 1);
                    return r;
                },
                RaceStep::Wait => {},
            }
        }
    }
}

/// Where a member of a hybrid succeeds, the hybrid succeeds, and with the
/// payload of one of its members.
pub proof fn lemma_a_success_wins<T>(
    events: Seq<Result<T, UpstreamError>>,
    r: Result<T, UpstreamError>,
)
    requires
        settles_with(events, r),
        exists|i: int| 0 <= i < events.len() && (#[trigger] events[i]) is Ok,
    ensures
        r is Ok,
        exists|i: int|
            0 <= i < events.len() && (#[trigger] events[i]) == Ok::<T, UpstreamError>(r->Ok_0),
{
    if r is Ok {
        let i = choose|i: int|
            0 <= i < events.len() && (#[trigger] events[i]) == r && forall|j: int|
                0 <= j < i ==> (#[trigger] events[j]) is Err;
        assert(events[i] == Ok::<T, UpstreamError>(r->Ok_0));
    }
}

/// Where every member of a hybrid fails, the hybrid fails, and with the
/// error of the member that came back last.
pub proof fn lemma_all_failures_fail<T>(
    events: Seq<Result<T, UpstreamError>>,
    r: Result<T, UpstreamError>,
)
    requires
        settles_with(events, r),
        forall|i: int| 0 <= i < events.len() ==> (#[trigger] events[i]) is Err,
    ensures
        r is Err,
        events.len() > 0,
        r == events.last(),
{
}

} // verus!
