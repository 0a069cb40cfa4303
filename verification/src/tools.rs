//! Small helpers: retrying a failing step, and sorting results into successes and errors.

use vstd::prelude::*;

verus! {

/// What to do after an attempt.
#[derive(Debug, Clone, Copy, PartialEq, Eq, Structural)]
pub enum RetryStep {
    /// Keep the attempt's result.
    Stop,
    /// Try again, with `retries_left` retries remaining after this one.
    Retry { retries_left: usize },
}

/// The decision after an attempt: retry while retries remain and the attempt failed.
pub open spec fn retry_step(retries_left: nat, failed: bool) -> RetryStep {
    if retries_left > 0 && failed {
        RetryStep::Retry { retries_left: (retries_left - 1) as usize }
    } else {
        RetryStep::Stop
    }
}

/// Decides whether to try again after an attempt, given the retries that remain.
pub fn next_retry(retries_left: usize, failed: bool) -> (s: RetryStep)
    ensures
        s == retry_step(retries_left as nat, failed),
{
    if retries_left > 0 && failed {
        RetryStep::Retry { retries_left: retries_left - 1 }
    } else {
        RetryStep::Stop
    }
}

/// How many attempts are made with `retries` retries when attempt `k` fails exactly
/// when `failures[k]` holds (attempts past the end of `failures` succeed).
pub open spec fn attempts_made(retries: nat, failures: Seq<bool>) -> nat
    decreases failures.len(),
{
    let failed = failures.len() > 0 && failures[0];
    match retry_step(retries, failed) {
        RetryStep::Retry { retries_left } => 1 + attempts_made(retries_left as nat, failures.drop_first()),
        RetryStep::Stop => 1,
    }
}

/// Retrying makes at most `retries + 1` attempts, and stops at the first success.
pub proof fn lemma_attempts_bounded(retries: nat, failures: Seq<bool>)
    requires
        retries <= usize::MAX,
    ensures
        1 <= attempts_made(retries, failures) <= retries + 1,
        attempts_made(retries, failures) <= failures.len() + 1,
        forall|k: int| 0 <= k < attempts_made(retries, failures) - 1 ==> failures[k],
    decreases failures.len(),
{
    if retries > 0 && failures.len() > 0 && failures[0] {
        let rest = failures.drop_first();
        lemma_attempts_bounded((retries - 1) as nat, rest);
        assert forall|k: int| 0 <= k < attempts_made(retries, failures) - 1 implies failures[k] by {
            if k > 0 {
                assert(failures[k] == rest[k - 1]);
            }
        }
    }
}

/// The values of the successes among `items`, in order.
pub open spec fn ok_values<R, E>(items: Seq<Result<R, E>>) -> Seq<R>
    decreases items.len(),
{
    if items.len() == 0 {
        Seq::empty()
    } else {
        match items.last() {
            Ok(v) => ok_values(items.drop_last()).push(v),
            Err(_) => ok_values(items.drop_last()),
        }
    }
}

/// The errors among `items`, in order.
pub open spec fn err_values<R, E>(items: Seq<Result<R, E>>) -> Seq<E>
    decreases items.len(),
{
    if items.len() == 0 {
        Seq::empty()
    } else {
        match items.last() {
            Ok(_) => err_values(items.drop_last()),
            Err(e) => err_values(items.drop_last()).push(e),
        }
    }
}

/// Splits results into the values of the successes and the errors, each in order.
pub fn partition_errors<R, E>(items: Vec<Result<R, E>>) -> (parts: (Vec<R>, Vec<E>))
    ensures
        parts.0@ == ok_values(items@),
        parts.1@ == err_values(items@),
{
    let ghost all = items@;
    let mut rest = items;
    let mut reversed: Vec<Result<R, E>> = Vec::new();
    while rest.len() > 0
        invariant
            all == rest@ + reversed@.reverse(),
        decreases rest.len(),
    {
        let ghost before = rest@;
        let item = rest.pop().unwrap();
        assert(reversed@.push(item).reverse() =~= seq![item] + reversed@.reverse());
        assert(before =~= rest@.push(item));
        reversed.push(item);
    }
    let mut oks: Vec<R> = Vec::new();
    let mut errs: Vec<E> = Vec::new();
    let ghost n = all.len();
    while reversed.len() > 0
        invariant
            all == all.take(n - reversed@.len()) + reversed@.reverse(),
            reversed@.len() <= n,
            n == all.len(),
            oks@ == ok_values(all.take(n - reversed@.len())),
            errs@ == err_values(all.take(n - reversed@.len())),
        decreases reversed.len(),
    {
        let ghost done = all.take(n - reversed@.len());
        let item = reversed.pop().unwrap();
        let ghost next = all.take(n - reversed@.len());
        assert(next.drop_last() =~= done);
        assert(next.last() == item) by {
            assert(all[n - reversed@.len() - 1] == item);
        }
        match item {
            Ok(v) => oks.push(v),
            Err(e) => errs.push(e),
        }
    }
    assert(all.take(n as int) =~= all);
    (oks, errs)
}

} // verus!
