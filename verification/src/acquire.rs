//! The retry policy of the stream acquirer: which endpoint to try next,
//! and when to wait.
//!
//! The endpoints are tried in their order. A pass ends with the first
//! that answers; where none does, the policy waits once and starts over,
//! for as long as it takes.

use vstd::prelude::*;

verus! {

/// What the acquirer does next.
#[derive(Clone, Copy, Debug, PartialEq, Eq, Structural)]
pub enum AcquireStep {
    /// Try to open a stream to the endpoint at this place in the list.
    Connect(usize),
    /// Every endpoint failed: wait this many milliseconds, then start a
    /// new pass.
    Wait(u64),
    /// The stream to the endpoint at this place is open.
    Done(usize),
}

/// A list of `endpoints` candidates and the delay between two passes.
#[derive(Clone, Copy, Debug, PartialEq, Eq, Structural)]
pub struct RetryPolicy {
    pub endpoints: usize,
    pub retry_delay_ms: u64,
}

impl RetryPolicy {
    /// The step that opens a pass.
    pub open spec fn spec_first(self) -> AcquireStep {
        if self.endpoints == 0 {
            AcquireStep::Wait(self.retry_delay_ms)
        } else {
            AcquireStep::Connect(0)
        }
    }

    /// The step that follows an attempt on the endpoint at `tried`.
    pub open spec fn spec_after(self, tried: usize, connected: bool) -> AcquireStep {
        if connected {
            AcquireStep::Done(tried)
        } else if tried + 1 < self.endpoints {
            AcquireStep::Connect((tried + 1) as usize)
        } else {
            AcquireStep::Wait(self.retry_delay_ms)
        }
    }

    /// The steps taken from `step` on, while the attempts end as
    /// `outcomes` say, up to the first step whose attempt they leave open.
    pub open spec fn steps_from(self, step: AcquireStep, outcomes: Seq<bool>) -> Seq<AcquireStep>
        decreases outcomes.len(), (if step is Wait { 1int } else { 0int }),
    {
        match step {
            AcquireStep::Connect(tried) => if outcomes.len() == 0 {
                seq![step]
            } else {
                seq![step] + self.steps_from(
                    self.spec_after(tried, outcomes[0]),
                    outcomes.drop_first(),
                )
            },
            AcquireStep::Wait(_) => if self.endpoints == 0 {
                seq![step]
            } else {
                seq![step] + self.steps_from(self.spec_first(), outcomes)
            },
            AcquireStep::Done(_) => seq![step],
        }
    }

    /// The steps of an acquisition whose attempts end as `outcomes` say.
    pub open spec fn steps(self, outcomes: Seq<bool>) -> Seq<AcquireStep> {
        self.steps_from(self.spec_first(), outcomes)
    }

    /// A policy for `endpoints` candidates.
    pub fn new(endpoints: usize, retry_delay_ms: u64) -> (policy: RetryPolicy)
        ensures
            policy == (RetryPolicy { endpoints, retry_delay_ms }),
    {
        RetryPolicy { endpoints, retry_delay_ms }
    }

    /// The step that opens a pass: the first one, and each one after a
    /// wait. It tries the first endpoint.
    pub fn first(&self) -> (step: AcquireStep)
        ensures
            step == self.spec_first(),
    {
        if self.endpoints == 0 {
            AcquireStep::Wait(self.retry_delay_ms)
        } else {
            AcquireStep::Connect(0)
        }
    }

    /// The step that follows an attempt on the endpoint at `tried`: done
    /// where it connected; else the next endpoint at once; and the wait
    /// only behind the last one.
    pub fn after(&self, tried: usize, connected: bool) -> (step: AcquireStep)
        ensures
            step == self.spec_after(tried, connected),
    {
        if connected {
            AcquireStep::Done(tried)
        } else if tried < usize::MAX && tried + 1 < self.endpoints {
            AcquireStep::Connect(tried + 1)
        } else {
            AcquireStep::Wait(self.retry_delay_ms)
        }
    }
}

/// `failures` attempts that fail, then one that connects.
pub open spec fn fail_then_connect(failures: nat) -> Seq<bool> {
    Seq::new(failures + 1, |i: int| i == failures)
}

/// The endpoints from `from` up to and including `last`, each tried once,
/// and then done with `last`.
pub open spec fn straight_to(from: int, last: int) -> Seq<AcquireStep>
    recommends
        0 <= from <= last,
{
    Seq::new(
        (last - from + 2) as nat,
        |i: int|
            if i <= last - from {
                AcquireStep::Connect((from + i) as usize)
            } else {
                AcquireStep::Done(last as usize)
            },
    )
}

/// From an attempt on the endpoint at `from`, with the endpoints up to
/// `last` failing and `last` connecting, the steps go straight to `last`.
proof fn lemma_straight_from(policy: RetryPolicy, from: int, last: int)
    requires
        0 <= from <= last < policy.endpoints,
    ensures
        policy.steps_from(
            AcquireStep::Connect(from as usize),
            fail_then_connect((last - from) as nat),
        ) == straight_to(from, last),
    decreases last - from,
{
    let outcomes = fail_then_connect((last - from) as nat);
    let step = AcquireStep::Connect(from as usize);
    if from == last {
        assert(outcomes.drop_first().len() == 0);
        assert(policy.steps_from(AcquireStep::Done(from as usize), outcomes.drop_first()) == seq![
            AcquireStep::Done(from as usize),
        ]);
        assert(policy.steps_from(step, outcomes) =~= straight_to(from, last));
    } else {
        lemma_straight_from(policy, from + 1, last);
        assert(outcomes.drop_first() =~= fail_then_connect((last - from - 1) as nat));
        assert(policy.spec_after(from as usize, outcomes[0]) == AcquireStep::Connect(
            (from + 1) as usize,
        ));
        assert(policy.steps_from(step, outcomes) =~= straight_to(from, last));
    }
}

/// Where the first `failures` endpoints fail and the next one connects,
/// the acquirer tries them in their order, one straight after the other,
/// and is done with the one that connected: no wait stands between two
/// endpoints of one pass.
pub proof fn lemma_no_wait_within_pass(policy: RetryPolicy, failures: nat)
    requires
        failures < policy.endpoints,
    ensures
        policy.steps(fail_then_connect(failures)) == straight_to(0, failures as int),
        policy.steps(fail_then_connect(failures)).len() == failures + 2,
        policy.steps(fail_then_connect(failures)).last() == AcquireStep::Done(failures as usize),
        forall|i: int|
            0 <= i < policy.steps(fail_then_connect(failures)).len() ==> !((
            #[trigger] policy.steps(fail_then_connect(failures))[i]) is Wait),
{
    lemma_straight_from(policy, 0, failures as int);
}

/// The wait stands between two passes and nowhere else: it follows an
/// attempt only where that attempt failed on the last endpoint, and the
/// pass that follows it starts with the first endpoint again.
pub proof fn lemma_wait_between_passes(policy: RetryPolicy, tried: usize, connected: bool)
    requires
        tried < policy.endpoints,
    ensures
        policy.spec_after(tried, connected) is Wait <==> !connected && tried == policy.endpoints
            - 1,
        policy.spec_after(tried, connected) is Wait ==> policy.spec_after(tried, connected)
            == AcquireStep::Wait(policy.retry_delay_ms),
        policy.spec_first() == AcquireStep::Connect(0),
{
}

} // verus!
