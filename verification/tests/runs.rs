//! Whole runs, driven step by step with the completions handed in by hand.

use retry_queue::notice::Notice;
use retry_queue::outcome::RetryQueueOutcome;
use retry_queue::queue::{RetryQueue, Step};
use std::collections::HashMap;

/// What a driver did during a run.
struct Trace<K> {
    batches: Vec<Vec<K>>,
    pauses: usize,
    notices: Vec<Notice>,
}

/// Drives a run to its end. The operations of a round are started in the
/// order of the batch; `arrival` gives, for the number of a round and the
/// size of its batch, the order in which they complete.
fn drive<K: Clone, T, E>(
    keys: Vec<K>,
    max_retry_attempts: usize,
    mut operation: impl FnMut(K) -> Result<RetryQueueOutcome<T, K>, E>,
    arrival: impl Fn(usize, usize) -> Vec<usize>,
) -> (Result<(Vec<T>, Vec<K>), E>, Trace<K>) {
    let mut trace = Trace { batches: Vec::new(), pauses: 0, notices: Vec::new() };
    let (mut queue, mut batch) = RetryQueue::start(keys, max_retry_attempts);
    let mut round: usize = 0;
    loop {
        trace.batches.push(batch.clone());
        let mut answers: Vec<Option<Result<RetryQueueOutcome<T, K>, E>>> =
            batch.into_iter().map(|key| Some(operation(key))).collect();
        for i in arrival(round, answers.len()) {
            let attempt = answers[i].take().expect("an operation completes once");
            queue = match queue.record(attempt) {
                Ok(next) => next,
                Err(error) => return (Err(error), trace),
            };
        }
        match queue.end_round() {
            Step::Retry { queue: next, keys, pause, notice } => {
                if pause {
                    trace.pauses += 1;
                }
                trace.notices.push(notice);
                queue = next;
                batch = keys;
            }
            Step::Finish { successes, pending, notices } => {
                trace.notices.extend(notices);
                return (Ok((successes, pending)), trace);
            }
        }
        round += 1;
    }
}

fn in_order(_round: usize, size: usize) -> Vec<usize> {
    (0..size).collect()
}

fn reversed(_round: usize, size: usize) -> Vec<usize> {
    (0..size).rev().collect()
}

fn odd_first(_round: usize, size: usize) -> Vec<usize> {
    (0..size).filter(|i| i % 2 == 1).chain((0..size).filter(|i| i % 2 == 0)).collect()
}

fn sorted(mut values: Vec<u32>) -> Vec<u32> {
    values.sort();
    values
}

/// Succeeds with ten times the key, at once for an even key and at the
/// second attempt for an odd one.
fn odd_keys_need_two_attempts(
    seen: &mut HashMap<u32, usize>,
    key: u32,
) -> Result<RetryQueueOutcome<u32, u32>, String> {
    let attempts = seen.entry(key).or_insert(0);
    *attempts += 1;
    if key % 2 == 0 || *attempts >= 2 {
        Ok(RetryQueueOutcome::Success(key * 10))
    } else {
        Ok(RetryQueueOutcome::Retry(key))
    }
}

#[test]
fn no_keys_give_an_empty_result() {
    let mut calls: usize = 0;
    let (result, trace) = drive(
        Vec::<u32>::new(),
        3,
        |key| -> Result<RetryQueueOutcome<u32, u32>, String> {
            calls += 1;
            Ok(RetryQueueOutcome::Success(key))
        },
        in_order,
    );
    assert_eq!(result, Ok((Vec::new(), Vec::new())));
    assert_eq!(trace.batches, vec![Vec::<u32>::new()]);
    assert_eq!(trace.pauses, 0);
    assert!(trace.notices.is_empty());
    assert_eq!(calls, 0);
}

#[test]
fn all_successes_need_one_round() {
    let mut calls: Vec<u32> = Vec::new();
    let (result, trace) = drive(
        vec![4, 9, 2, 7],
        5,
        |key| -> Result<RetryQueueOutcome<u32, u32>, String> {
            calls.push(key);
            Ok(RetryQueueOutcome::Success(key + 100))
        },
        reversed,
    );
    assert_eq!(result, Ok((vec![107, 102, 109, 104], Vec::new())));
    assert_eq!(trace.batches, vec![vec![4, 9, 2, 7]]);
    assert_eq!(trace.pauses, 0);
    assert!(trace.notices.is_empty());
    assert_eq!(calls, vec![4, 9, 2, 7]);
}

#[test]
fn all_retries_attempt_every_key_in_every_round() {
    let mut calls: HashMap<u32, usize> = HashMap::new();
    let (result, trace) = drive(
        vec![1, 2, 3],
        3,
        |key| -> Result<RetryQueueOutcome<u32, u32>, String> {
            *calls.entry(key).or_insert(0) += 1;
            Ok(RetryQueueOutcome::Retry(key))
        },
        reversed,
    );
    let (successes, pending) = result.expect("a retry is no error");
    assert!(successes.is_empty());
    assert_eq!(sorted(pending), vec![1, 2, 3]);
    assert_eq!(trace.batches.len(), 4);
    for batch in &trace.batches {
        assert_eq!(sorted(batch.clone()), vec![1, 2, 3]);
    }
    assert_eq!(calls.len(), 3);
    for key in [1, 2, 3] {
        assert_eq!(calls[&key], 4);
    }
    assert_eq!(trace.pauses, 2);
    assert_eq!(
        trace.notices,
        vec![
            Notice::RoundStarted { pending: 3, attempt: 1 },
            Notice::RoundStarted { pending: 3, attempt: 2 },
            Notice::RoundStarted { pending: 3, attempt: 3 },
            Notice::Completed { attempts: 3 },
            Notice::GaveUp { pending: 3, attempts: 3 },
        ]
    );
}

#[test]
fn all_retries_come_back_in_the_order_of_arrival() {
    let (result, trace) = drive(
        vec![1, 2, 3],
        2,
        |key| -> Result<RetryQueueOutcome<u32, u32>, String> { Ok(RetryQueueOutcome::Retry(key)) },
        reversed,
    );
    assert_eq!(trace.batches, vec![vec![1, 2, 3], vec![3, 2, 1], vec![1, 2, 3]]);
    assert_eq!(result, Ok((Vec::new(), vec![3, 2, 1])));
}

#[test]
fn no_retry_round_means_one_attempt_per_key() {
    let mut calls: Vec<u32> = Vec::new();
    let (result, trace) = drive(
        vec![1, 2, 3, 4],
        0,
        |key| -> Result<RetryQueueOutcome<u32, u32>, String> {
            calls.push(key);
            if key % 2 == 0 {
                Ok(RetryQueueOutcome::Success(key * 10))
            } else {
                Ok(RetryQueueOutcome::Retry(key))
            }
        },
        in_order,
    );
    assert_eq!(result, Ok((vec![20, 40], vec![1, 3])));
    assert_eq!(calls, vec![1, 2, 3, 4]);
    assert_eq!(trace.batches, vec![vec![1, 2, 3, 4]]);
    assert_eq!(trace.pauses, 0);
    assert_eq!(trace.notices, vec![Notice::GaveUp { pending: 2, attempts: 0 }]);
}

#[test]
fn fatal_error_in_the_initial_round_is_returned() {
    let mut calls: usize = 0;
    let (result, trace) = drive(
        vec![1, 2, 3],
        2,
        |key| -> Result<RetryQueueOutcome<u32, u32>, String> {
            calls += 1;
            match key {
                1 => Ok(RetryQueueOutcome::Success(10)),
                2 => Err(format!("key {key} failed")),
                _ => Ok(RetryQueueOutcome::Retry(key)),
            }
        },
        in_order,
    );
    assert_eq!(result, Err(String::from("key 2 failed")));
    assert_eq!(trace.batches, vec![vec![1, 2, 3]]);
    assert_eq!(trace.pauses, 0);
    assert!(trace.notices.is_empty());
    assert_eq!(calls, 3);
}

#[test]
fn fatal_error_in_a_retry_round_is_returned() {
    let mut seen: HashMap<u32, usize> = HashMap::new();
    let (result, trace) = drive(
        vec![1, 2, 3],
        4,
        |key| -> Result<RetryQueueOutcome<u32, u32>, String> {
            let attempts = seen.entry(key).or_insert(0);
            *attempts += 1;
            if key == 3 && *attempts == 3 {
                Err(String::from("third attempt of key 3 failed"))
            } else if key == 1 {
                Ok(RetryQueueOutcome::Success(10))
            } else {
                Ok(RetryQueueOutcome::Retry(key))
            }
        },
        in_order,
    );
    assert_eq!(result, Err(String::from("third attempt of key 3 failed")));
    assert_eq!(trace.batches, vec![vec![1, 2, 3], vec![2, 3], vec![2, 3]]);
    assert_eq!(trace.pauses, 1);
    assert_eq!(
        trace.notices,
        vec![
            Notice::RoundStarted { pending: 2, attempt: 1 },
            Notice::RoundStarted { pending: 2, attempt: 2 },
        ]
    );
}

#[test]
fn first_fatal_error_to_arrive_wins() {
    let operation = |key: u32| -> Result<RetryQueueOutcome<u32, u32>, String> {
        if key == 2 {
            Ok(RetryQueueOutcome::Success(20))
        } else {
            Err(format!("key {key} failed"))
        }
    };
    let (result, _) = drive(vec![1, 2, 3], 1, operation, in_order);
    assert_eq!(result, Err(String::from("key 1 failed")));
    let (result, _) = drive(vec![1, 2, 3], 1, operation, reversed);
    assert_eq!(result, Err(String::from("key 3 failed")));
}

#[test]
fn arrival_order_changes_only_the_order_of_the_result() {
    let mut runs: Vec<(Vec<u32>, Vec<u32>)> = Vec::new();
    let mut rounds: Vec<usize> = Vec::new();
    let mut notices: Vec<Vec<Notice>> = Vec::new();
    let orders: [fn(usize, usize) -> Vec<usize>; 3] = [in_order, reversed, odd_first];
    for arrival in orders {
        let mut seen: HashMap<u32, usize> = HashMap::new();
        let (result, trace) = drive(
            vec![1, 2, 3, 4, 5, 6, 7],
            2,
            |key| -> Result<RetryQueueOutcome<u32, u32>, String> {
                let attempts = seen.entry(key).or_insert(0);
                *attempts += 1;
                if key % 3 == 0 {
                    Ok(RetryQueueOutcome::Retry(key))
                } else if key % 2 == 0 || *attempts >= 2 {
                    Ok(RetryQueueOutcome::Success(key * 10))
                } else {
                    Ok(RetryQueueOutcome::Retry(key))
                }
            },
            arrival,
        );
        let (successes, pending) = result.expect("no operation fails fatally");
        runs.push((sorted(successes), sorted(pending)));
        rounds.push(trace.batches.len());
        notices.push(trace.notices);
    }
    assert_eq!(runs[0], (vec![10, 20, 40, 50, 70], vec![3, 6]));
    assert_eq!(runs[1], runs[0]);
    assert_eq!(runs[2], runs[0]);
    assert_eq!(rounds, vec![3, 3, 3]);
    assert_eq!(notices[1], notices[0]);
    assert_eq!(notices[2], notices[0]);
}

#[test]
fn odd_keys_succeed_in_the_first_retry_round() {
    let mut seen: HashMap<u32, usize> = HashMap::new();
    let (result, trace) = drive(
        vec![1, 2, 3],
        1,
        |key| odd_keys_need_two_attempts(&mut seen, key),
        in_order,
    );
    let (successes, pending) = result.expect("no operation fails fatally");
    assert_eq!(successes, vec![20, 10, 30]);
    assert!(pending.is_empty());
    assert_eq!(trace.batches, vec![vec![1, 2, 3], vec![1, 3]]);
    assert_eq!(trace.pauses, 0);
    assert_eq!(
        trace.notices,
        vec![Notice::RoundStarted { pending: 2, attempt: 1 }, Notice::Completed { attempts: 1 }]
    );
    assert_eq!(seen[&1], 2);
    assert_eq!(seen[&2], 1);
    assert_eq!(seen[&3], 2);
}

#[test]
fn odd_keys_succeed_whatever_the_arrival_order() {
    let mut seen: HashMap<u32, usize> = HashMap::new();
    let (result, trace) = drive(
        vec![1, 2, 3],
        1,
        |key| odd_keys_need_two_attempts(&mut seen, key),
        reversed,
    );
    let (successes, pending) = result.expect("no operation fails fatally");
    assert_eq!(successes, vec![20, 10, 30]);
    assert!(pending.is_empty());
    assert_eq!(trace.batches, vec![vec![1, 2, 3], vec![3, 1]]);
    assert_eq!(trace.notices.last(), Some(&Notice::Completed { attempts: 1 }));
}

#[test]
fn one_key_that_always_retries_is_attempted_three_times() {
    let mut calls: usize = 0;
    let (result, trace) = drive(
        vec![1],
        2,
        |key: u32| -> Result<RetryQueueOutcome<u32, u32>, String> {
            calls += 1;
            Ok(RetryQueueOutcome::Retry(key))
        },
        in_order,
    );
    assert_eq!(result, Ok((Vec::new(), vec![1])));
    assert_eq!(calls, 3);
    assert_eq!(trace.batches, vec![vec![1], vec![1], vec![1]]);
    assert_eq!(trace.pauses, 1);
    assert_eq!(
        trace.notices,
        vec![
            Notice::RoundStarted { pending: 1, attempt: 1 },
            Notice::RoundStarted { pending: 1, attempt: 2 },
            Notice::Completed { attempts: 2 },
            Notice::GaveUp { pending: 1, attempts: 2 },
        ]
    );
}

#[test]
fn retry_rounds_stop_as_soon_as_nothing_is_pending() {
    let mut seen: HashMap<u32, usize> = HashMap::new();
    let (result, trace) = drive(
        vec![1, 2, 3],
        10,
        |key| -> Result<RetryQueueOutcome<u32, u32>, String> {
            let attempts = seen.entry(key).or_insert(0);
            *attempts += 1;
            if *attempts >= key as usize {
                Ok(RetryQueueOutcome::Success(key))
            } else {
                Ok(RetryQueueOutcome::Retry(key))
            }
        },
        in_order,
    );
    assert_eq!(result, Ok((vec![1, 2, 3], Vec::new())));
    assert_eq!(trace.batches, vec![vec![1, 2, 3], vec![2, 3], vec![3]]);
    assert_eq!(trace.pauses, 1);
    assert_eq!(
        trace.notices,
        vec![
            Notice::RoundStarted { pending: 2, attempt: 1 },
            Notice::RoundStarted { pending: 1, attempt: 2 },
            Notice::Completed { attempts: 2 },
        ]
    );
}

#[test]
fn a_retry_may_change_the_key() {
    let (result, trace) = drive(
        vec![1, 2],
        3,
        |key: u32| -> Result<RetryQueueOutcome<u32, u32>, String> {
            if key >= 200 {
                Ok(RetryQueueOutcome::Success(key))
            } else {
                Ok(RetryQueueOutcome::Retry(key + 100))
            }
        },
        in_order,
    );
    assert_eq!(result, Ok((vec![201, 202], Vec::new())));
    assert_eq!(trace.batches, vec![vec![1, 2], vec![101, 102], vec![201, 202]]);
}

#[test]
fn a_key_queued_twice_is_retried_twice() {
    let mut calls: Vec<u32> = Vec::new();
    let (result, trace) = drive(
        vec![1, 2],
        1,
        |key: u32| -> Result<RetryQueueOutcome<u32, u32>, String> {
            calls.push(key);
            if key == 9 {
                Ok(RetryQueueOutcome::Success(90))
            } else {
                Ok(RetryQueueOutcome::Retry(9))
            }
        },
        in_order,
    );
    assert_eq!(result, Ok((vec![90, 90], Vec::new())));
    assert_eq!(trace.batches, vec![vec![1, 2], vec![9, 9]]);
    assert_eq!(calls, vec![1, 2, 9, 9]);
}

#[test]
fn successes_keep_the_order_of_arrival_across_rounds() {
    let mut seen: HashMap<u32, usize> = HashMap::new();
    let (result, _) = drive(
        vec![1, 2, 3, 4],
        1,
        |key| odd_keys_need_two_attempts(&mut seen, key),
        odd_first,
    );
    assert_eq!(result, Ok((vec![20, 40, 30, 10], Vec::new())));
}
