use nasus::acquire::{AcquireStep, RetryPolicy};

fn run(policy: &RetryPolicy, outcomes: &[bool]) -> Vec<AcquireStep> {
    let mut steps = Vec::new();
    let mut step = policy.first();
    let mut at = 0;
    loop {
        steps.push(step);
        step = match step {
            AcquireStep::Connect(tried) => {
                if at == outcomes.len() {
                    return steps;
                }
                at += 1;
                policy.after(tried, outcomes[at - 1])
            }
            AcquireStep::Wait(_) => {
                if policy.endpoints == 0 {
                    return steps;
                }
                policy.first()
            }
            AcquireStep::Done(_) => return steps,
        };
    }
}

#[test]
fn first_endpoint_that_answers_ends_the_pass() {
    let policy = RetryPolicy::new(2, 5000);
    assert_eq!(run(&policy, &[true]), vec![AcquireStep::Connect(0), AcquireStep::Done(0)]);
}

#[test]
fn no_wait_between_endpoints_of_one_pass() {
    let policy = RetryPolicy::new(4, 5000);
    for failures in 0..4usize {
        let mut outcomes = vec![false; failures];
        outcomes.push(true);
        let steps = run(&policy, &outcomes);
        assert_eq!(steps.len(), failures + 2);
        for (i, step) in steps.iter().enumerate().take(failures + 1) {
            assert_eq!(*step, AcquireStep::Connect(i));
        }
        assert_eq!(steps[failures + 1], AcquireStep::Done(failures));
    }
}

#[test]
fn wait_follows_a_pass_in_which_all_failed() {
    let policy = RetryPolicy::new(2, 5000);
    assert_eq!(
        run(&policy, &[false, false, false, true]),
        vec![
            AcquireStep::Connect(0),
            AcquireStep::Connect(1),
            AcquireStep::Wait(5000),
            AcquireStep::Connect(0),
            AcquireStep::Connect(1),
            AcquireStep::Done(1),
        ]
    );
}

#[test]
fn retries_without_end() {
    let policy = RetryPolicy::new(1, 10);
    let steps = run(&policy, &[false; 50]);
    assert_eq!(steps.len(), 101);
    for (i, step) in steps.iter().enumerate() {
        if i % 2 == 0 {
            assert_eq!(*step, AcquireStep::Connect(0));
        } else {
            assert_eq!(*step, AcquireStep::Wait(10));
        }
    }
}

#[test]
fn after_an_attempt() {
    let policy = RetryPolicy::new(3, 250);
    assert_eq!(policy.first(), AcquireStep::Connect(0));
    assert_eq!(policy.after(0, false), AcquireStep::Connect(1));
    assert_eq!(policy.after(1, false), AcquireStep::Connect(2));
    assert_eq!(policy.after(2, false), AcquireStep::Wait(250));
    assert_eq!(policy.after(2, true), AcquireStep::Done(2));
    assert_eq!(policy.after(usize::MAX, false), AcquireStep::Wait(250));
    assert_eq!(policy.after(usize::MAX, true), AcquireStep::Done(usize::MAX));
}

#[test]
fn without_endpoints_the_policy_only_waits() {
    let policy = RetryPolicy::new(0, 7);
    assert_eq!(policy.first(), AcquireStep::Wait(7));
    assert_eq!(run(&policy, &[true]), vec![AcquireStep::Wait(7)]);
}

#[test]
fn policy_keeps_what_it_was_made_with() {
    let policy = RetryPolicy::new(2, 5000);
    assert_eq!(policy.endpoints, 2);
    assert_eq!(policy.retry_delay_ms, 5000);
}
