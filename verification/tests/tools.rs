use wikidot_fi::tools::{next_retry, partition_errors, RetryStep};

#[test]
fn partition_errors_example() {
    let result_collection: Vec<Result<i32, &str>> = vec![Ok(3), Err("Error"), Ok(5), Ok(10), Err("Error 2"), Ok(9)];
    let (successes, errors) = partition_errors(result_collection);
    assert_eq!(successes, vec![3, 5, 10, 9]);
    assert_eq!(errors, vec!["Error", "Error 2"]);
}

#[test]
fn partition_errors_empty_and_one_sided() {
    let (a, b) = partition_errors(Vec::<Result<u8, u8>>::new());
    assert!(a.is_empty() && b.is_empty());
    let (a, b) = partition_errors(vec![Err::<u8, u8>(1), Err(2)]);
    assert!(a.is_empty());
    assert_eq!(b, vec![1, 2]);
}

#[test]
fn retry_decisions() {
    assert_eq!(next_retry(5, true), RetryStep::Retry { retries_left: 4 });
    assert_eq!(next_retry(5, false), RetryStep::Stop);
    assert_eq!(next_retry(0, true), RetryStep::Stop);
}

#[test]
fn retry_loop_makes_at_most_retries_plus_one_attempts() {
    let mut attempts = 1;
    let mut left = 3usize;
    while let RetryStep::Retry { retries_left } = next_retry(left, true) {
        left = retries_left;
        attempts += 1;
    }
    assert_eq!(attempts, 4);
}
