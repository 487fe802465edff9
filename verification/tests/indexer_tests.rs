use chain_indexer::block_fetcher::Launch;
use chain_indexer::error::Error;
use chain_indexer::head::{BackoffPolicy, Recovery};
use chain_indexer::indexer::{
    Action, ChainIndexer, Completion, Progress, RetryPolicies, SaveRecovery,
};
use chain_indexer::settings::Settings;
use chain_indexer::task::{FetchOutcome, FetchResult, FetchTask};

fn policies() -> RetryPolicies {
    RetryPolicies {
        reconnect: BackoffPolicy { base_ms: 100, cap_ms: 1000, max_attempts: Some(2) },
        fetch: BackoffPolicy { base_ms: 10, cap_ms: 80, max_attempts: None },
        save: BackoffPolicy { base_ms: 200, cap_ms: 500, max_attempts: Some(3) },
    }
}

fn settings(concurrency: usize, rps: u32, batch: usize) -> Settings {
    Settings::new("ws://node".to_string(), "db".to_string(), concurrency, rps, batch)
        .expect("all counts are positive")
}

fn indexer(
    concurrency: usize,
    rps: u32,
    batch: usize,
    head: u64,
    checkpoint: Option<u64>,
) -> ChainIndexer<String> {
    match ChainIndexer::from_settings(&settings(concurrency, rps, batch), 1, head, checkpoint, policies()) {
        Ok(indexer) => indexer,
        Err(error) => panic!("unexpected error: {}", error.message()),
    }
}

fn payload(n: u64) -> String {
    format!("block-{n}")
}

fn done(launch: Launch) -> (chain_indexer::admission::Permit, FetchResult<String>) {
    let n = launch.task.block_number;
    (launch.permit, FetchResult::of(launch.task, FetchOutcome::Block(payload(n))))
}

/// What a run of the pipeline showed.
struct Trace {
    delivered: Vec<u64>,
    saved: Vec<u64>,
    launched: Vec<FetchTask>,
    most_in_flight: usize,
}

/// Drives the indexer until it waits for the head. Every fetch succeeds;
/// among the running fetches the youngest finishes first.
fn run_until_idle(indexer: &mut ChainIndexer<String>, trace: &mut Trace) -> u64 {
    let mut running: Vec<Launch> = Vec::new();
    for _ in 0..10_000 {
        match indexer.next_action() {
            Action::Deliver { block_number, block } => {
                assert_eq!(block, payload(block_number));
                trace.delivered.push(block_number);
            }
            Action::Save { chain_id, block_number } => {
                assert_eq!(chain_id, 1);
                assert_eq!(indexer.on_saved(), Some(block_number));
                trace.saved.push(block_number);
            }
            Action::WaitForRateToken => {
                let launch = indexer.on_token().expect("a permit was reserved");
                trace.launched.push(launch.task);
                running.push(launch);
                trace.most_in_flight = trace.most_in_flight.max(running.len());
                assert_eq!(indexer.in_flight(), running.len());
            }
            Action::WaitForCompletion => {
                let (permit, result) = done(running.pop().expect("a fetch runs"));
                indexer.on_completion(permit, result);
            }
            Action::WaitForHead { past } => {
                if let Some(launch) = running.pop() {
                    let (permit, result) = done(launch);
                    indexer.on_completion(permit, result);
                } else {
                    return past;
                }
            }
            Action::Stop(error) => panic!("stopped: {}", error.message()),
        }
    }
    panic!("the pipeline did not come to rest");
}

fn new_trace() -> Trace {
    Trace { delivered: Vec::new(), saved: Vec::new(), launched: Vec::new(), most_in_flight: 0 }
}

#[test]
fn scenario_catches_up_with_the_head_then_waits() {
    // start block 100, head 105, two fetches at once, 1000 per second
    let mut indexer = indexer(2, 1000, 2, 105, Some(99));
    let mut trace = new_trace();
    let past = run_until_idle(&mut indexer, &mut trace);
    assert_eq!(trace.delivered, vec![100, 101, 102, 103, 104]);
    assert_eq!(past, 105);
    assert!(trace.most_in_flight <= 2);
    assert_eq!(trace.saved, vec![101, 103]);
    // the head does not move: still waiting
    assert!(!indexer.on_header(105));
    assert!(matches!(indexer.next_action(), Action::WaitForHead { past: 105 }));
    // the head reports 106: block 105 is fetched
    assert!(indexer.on_header(106));
    assert!(matches!(indexer.next_action(), Action::WaitForRateToken));
    let launch = indexer.on_token().unwrap();
    assert_eq!(launch.task, FetchTask::first(105));
    let (permit, result) = done(launch);
    assert_eq!(indexer.on_completion(permit, result), Completion::Stored { released: 1 });
    assert!(matches!(indexer.next_action(), Action::Deliver { block_number: 105, .. }));
    assert!(matches!(indexer.next_action(), Action::Save { chain_id: 1, block_number: 105 }));
}

#[test]
fn scenario_absent_block_is_retried_and_holds_back_later_blocks() {
    // head 110; block 103 is absent three times
    let mut indexer = indexer(4, 1000, 100, 110, Some(99));
    let mut running: Vec<Launch> = Vec::new();
    let mut delivered = Vec::new();
    let mut absences = 0;
    let mut retries_of_103 = Vec::new();
    let mut resolved = false;
    for _ in 0..10_000 {
        match indexer.next_action() {
            Action::Deliver { block_number, .. } => {
                if block_number >= 104 {
                    assert!(resolved, "block {block_number} came before block 103");
                }
                delivered.push(block_number);
            }
            Action::Save { .. } => {
                indexer.on_saved();
            }
            Action::WaitForRateToken => {
                let launch = indexer.on_token().unwrap();
                if launch.task.block_number == 103 && launch.task.attempt > 0 {
                    retries_of_103.push((launch.task.attempt, launch.delay_ms));
                }
                running.push(launch);
            }
            Action::WaitForCompletion | Action::WaitForHead { .. } => {
                let Some(launch) = running.pop() else { break };
                let task = launch.task;
                if task.block_number == 103 && absences < 3 {
                    absences += 1;
                    let absent = FetchResult::of(task, FetchOutcome::Absent);
                    assert_eq!(
                        indexer.on_completion(launch.permit, absent),
                        Completion::Retrying(task.retry())
                    );
                } else {
                    if task.block_number == 103 {
                        resolved = true;
                    }
                    let (permit, result) = done(launch);
                    indexer.on_completion(permit, result);
                }
            }
            Action::Stop(error) => panic!("stopped: {}", error.message()),
        }
    }
    assert!(resolved);
    assert_eq!(delivered, (100..110).collect::<Vec<u64>>());
    assert_eq!(retries_of_103, vec![(1, 10), (2, 20), (3, 40)]);
}

#[test]
fn resumes_after_the_checkpoint_or_at_block_zero() {
    let mut fresh = indexer(1, 10, 10, 3, None);
    let mut trace = new_trace();
    run_until_idle(&mut fresh, &mut trace);
    assert_eq!(trace.delivered, vec![0, 1, 2]);
    let mut resumed = indexer(1, 10, 10, 503, Some(500));
    let mut trace = new_trace();
    run_until_idle(&mut resumed, &mut trace);
    assert_eq!(trace.delivered, vec![501, 502]);
    assert_eq!(trace.launched[0], FetchTask::first(501));
}

#[test]
fn checkpoint_without_successor_is_refused() {
    let result: Result<ChainIndexer<String>, Error> =
        ChainIndexer::from_settings(&settings(1, 1, 1), 1, 0, Some(u64::MAX), policies());
    match result {
        Err(error) => assert_eq!(error, Error::BlockOutOfRange { block_number: u64::MAX }),
        Ok(_) => panic!("no block follows the largest one"),
    }
}

#[test]
fn restart_after_a_kill_repeats_the_unsaved_blocks() {
    // batch of 4: killed after delivering 100..=105, only 103 was saved
    let mut first = indexer(3, 1000, 4, 106, Some(99));
    let mut trace = new_trace();
    run_until_idle(&mut first, &mut trace);
    assert_eq!(trace.delivered, vec![100, 101, 102, 103, 104, 105]);
    assert_eq!(trace.saved, vec![103]);
    let stored = first.progress().last_saved_block;
    assert_eq!(stored, Some(103));
    drop(first);
    let mut second = indexer(3, 1000, 4, 108, stored);
    let mut trace = new_trace();
    run_until_idle(&mut second, &mut trace);
    // 104 and 105 are delivered again, nothing is skipped
    assert_eq!(trace.delivered, vec![104, 105, 106, 107]);
    assert_eq!(trace.saved, vec![107]);
}

#[test]
fn never_more_fetches_than_the_limit() {
    for limit in 1..6usize {
        let mut indexer = indexer(limit, 1000, 7, 40, None);
        let mut trace = new_trace();
        run_until_idle(&mut indexer, &mut trace);
        assert_eq!(trace.delivered, (0..40).collect::<Vec<u64>>());
        assert_eq!(trace.most_in_flight, limit);
        assert_eq!(trace.saved, vec![6, 13, 20, 27, 34]);
    }
}

#[test]
fn delivery_waits_for_the_due_checkpoint() {
    let mut indexer = indexer(4, 1000, 2, 110, Some(99));
    let mut running = Vec::new();
    for _ in 0..4 {
        assert!(matches!(indexer.next_action(), Action::WaitForRateToken));
        running.push(indexer.on_token().unwrap());
    }
    for launch in running {
        let (permit, result) = done(launch);
        indexer.on_completion(permit, result);
    }
    assert!(matches!(indexer.next_action(), Action::Deliver { block_number: 100, .. }));
    assert!(matches!(indexer.next_action(), Action::Deliver { block_number: 101, .. }));
    // the checkpoint is due: nothing else happens until it is saved
    for _ in 0..3 {
        assert!(matches!(indexer.next_action(), Action::Save { chain_id: 1, block_number: 101 }));
    }
    assert_eq!(indexer.progress().last_saved_block, Some(99));
    assert_eq!(indexer.on_saved(), Some(101));
    assert_eq!(indexer.progress().last_saved_block, Some(101));
    assert!(matches!(indexer.next_action(), Action::Deliver { block_number: 102, .. }));
    // reporting a save that was not due changes nothing
    assert_eq!(indexer.on_saved(), None);
    assert_eq!(indexer.progress().last_saved_block, Some(101));
}

#[test]
fn failed_saves_are_retried_then_stop_the_pipeline() {
    let mut indexer = indexer(1, 1000, 1, 110, None);
    assert!(matches!(indexer.next_action(), Action::WaitForRateToken));
    let (permit, result) = done(indexer.on_token().unwrap());
    indexer.on_completion(permit, result);
    assert!(matches!(indexer.next_action(), Action::Deliver { block_number: 0, .. }));
    assert!(matches!(indexer.next_action(), Action::Save { block_number: 0, .. }));
    assert_eq!(indexer.on_save_failed(), SaveRecovery::RetryAfter { delay_ms: 200 });
    assert_eq!(indexer.on_save_failed(), SaveRecovery::RetryAfter { delay_ms: 400 });
    // a save that succeeds resets the count
    assert_eq!(indexer.on_saved(), Some(0));
    assert!(matches!(indexer.next_action(), Action::WaitForRateToken));
    let (permit, result) = done(indexer.on_token().unwrap());
    indexer.on_completion(permit, result);
    assert!(matches!(indexer.next_action(), Action::Deliver { block_number: 1, .. }));
    assert_eq!(indexer.on_save_failed(), SaveRecovery::RetryAfter { delay_ms: 200 });
    assert_eq!(indexer.on_save_failed(), SaveRecovery::RetryAfter { delay_ms: 400 });
    assert_eq!(indexer.on_save_failed(), SaveRecovery::RetryAfter { delay_ms: 500 });
    assert_eq!(indexer.on_save_failed(), SaveRecovery::GiveUp);
    assert!(matches!(indexer.next_action(), Action::Stop(Error::DbQueryError)));
    assert_eq!(indexer.on_save_failed(), SaveRecovery::GiveUp);
    assert_eq!(indexer.progress().last_saved_block, Some(0));
}

#[test]
fn fatal_fetch_stops_the_pipeline() {
    let mut indexer = indexer(2, 1000, 10, 110, None);
    assert!(matches!(indexer.next_action(), Action::WaitForRateToken));
    let launch = indexer.on_token().unwrap();
    let fatal = FetchResult::of(launch.task, FetchOutcome::Fatal);
    assert_eq!(indexer.on_completion(launch.permit, fatal), Completion::Failed);
    assert!(matches!(indexer.next_action(), Action::Stop(Error::RpcError)));
    assert!(indexer.on_token().is_none());
    assert!(matches!(indexer.next_action(), Action::Stop(Error::RpcError)));
}

#[test]
fn transient_error_is_retried_inside_the_pipeline() {
    let mut indexer = indexer(2, 1000, 10, 110, None);
    assert!(matches!(indexer.next_action(), Action::WaitForRateToken));
    let launch = indexer.on_token().unwrap();
    let task = launch.task;
    let failed = FetchResult::of(task, FetchOutcome::Transient);
    assert_eq!(
        indexer.on_completion(launch.permit, failed),
        Completion::Retrying(FetchTask { block_number: 0, attempt: 1 })
    );
    assert_eq!(indexer.in_flight(), 0);
    assert!(matches!(indexer.next_action(), Action::WaitForRateToken));
    let again = indexer.on_token().unwrap();
    assert_eq!(again.task, FetchTask { block_number: 0, attempt: 1 });
    assert_eq!(again.delay_ms, 10);
}

#[test]
fn results_that_were_never_asked_for_are_dropped() {
    let mut indexer = indexer(4, 1000, 10, 110, Some(99));
    assert!(matches!(indexer.next_action(), Action::WaitForRateToken));
    let launch = indexer.on_token().unwrap();
    assert_eq!(launch.task.block_number, 100);
    // block 101 was never asked for
    let forged = FetchResult::of(FetchTask::first(101), FetchOutcome::Block(payload(101)));
    assert_eq!(indexer.on_completion(launch.permit, forged), Completion::Ignored);
    assert_eq!(indexer.progress().last_fetched_block, None);
    assert_eq!(indexer.in_flight(), 1);
    assert!(matches!(indexer.next_action(), Action::WaitForRateToken));
    let second = indexer.on_token().unwrap();
    assert_eq!(second.task, FetchTask::first(101));
    // a block is taken once: the second result for block 101 is dropped
    let (permit, result) = done(second);
    assert_eq!(indexer.on_completion(permit, result), Completion::Stored { released: 0 });
    assert!(matches!(indexer.next_action(), Action::WaitForRateToken));
    let third = indexer.on_token().unwrap();
    let again = FetchResult::of(FetchTask::first(101), FetchOutcome::Block(payload(101)));
    assert_eq!(indexer.on_completion(third.permit, again), Completion::Ignored);
    assert_eq!(indexer.in_flight(), 2);
}

#[test]
fn waiting_for_a_completion_means_that_a_fetch_runs() {
    let mut indexer = indexer(3, 1000, 5, 200, None);
    let mut running: Vec<Launch> = Vec::new();
    let mut seed: u64 = 99;
    let mut waits = 0;
    for _ in 0..3000 {
        seed = seed.wrapping_mul(6364136223846793005).wrapping_add(1442695040888963407);
        match indexer.next_action() {
            Action::Deliver { .. } => {}
            Action::Save { .. } => {
                indexer.on_saved();
            }
            Action::WaitForRateToken => running.push(indexer.on_token().unwrap()),
            Action::WaitForCompletion => {
                waits += 1;
                assert!(indexer.in_flight() >= 1);
                assert!(!running.is_empty());
                let pick = (seed >> 33) as usize % running.len();
                let launch = running.remove(pick);
                let outcome = match (seed >> 20) % 4 {
                    0 => FetchOutcome::Absent,
                    1 => FetchOutcome::Transient,
                    _ => FetchOutcome::Block(payload(launch.task.block_number)),
                };
                indexer.on_completion(launch.permit, FetchResult::of(launch.task, outcome));
            }
            Action::WaitForHead { .. } => break,
            Action::Stop(error) => panic!("stopped: {}", error.message()),
        }
        assert_eq!(indexer.in_flight(), running.len());
    }
    assert!(waits > 100);
}

#[test]
fn cancellation_stops_without_failure() {
    let mut indexer = indexer(2, 1000, 10, 110, None);
    assert!(matches!(indexer.next_action(), Action::WaitForRateToken));
    let running = indexer.on_token().unwrap();
    assert!(matches!(indexer.next_action(), Action::WaitForRateToken));
    indexer.cancel();
    match indexer.next_action() {
        Action::Stop(error) => {
            assert_eq!(error, Error::Cancelled);
            assert!(!error.is_failure());
        }
        _ => panic!("a cancelled pipeline stops"),
    }
    assert!(indexer.on_token().is_none());
    // the running fetch may still finish; its block is taken in
    assert_eq!(indexer.in_flight(), 1);
    let (permit, result) = done(running);
    assert_eq!(indexer.on_completion(permit, result), Completion::Stored { released: 1 });
    assert_eq!(indexer.in_flight(), 0);
    assert!(matches!(indexer.next_action(), Action::Stop(Error::Cancelled)));
    // the first reason stays
    assert_eq!(indexer.on_save_failed(), SaveRecovery::GiveUp);
    assert!(matches!(indexer.next_action(), Action::Stop(Error::Cancelled)));
}

#[test]
fn lost_head_subscription_is_restored_or_stops_the_pipeline() {
    let mut indexer = indexer(2, 1000, 10, 0, None);
    assert!(matches!(indexer.next_action(), Action::WaitForHead { past: 0 }));
    assert_eq!(indexer.on_stream_lost(), Recovery::Reconnect { delay_ms: 100 });
    assert!(matches!(indexer.next_action(), Action::WaitForHead { past: 0 }));
    indexer.on_resubscribed();
    assert_eq!(indexer.on_stream_lost(), Recovery::Reconnect { delay_ms: 100 });
    assert_eq!(indexer.on_stream_lost(), Recovery::Reconnect { delay_ms: 200 });
    assert_eq!(indexer.on_stream_lost(), Recovery::GiveUp);
    assert!(matches!(indexer.next_action(), Action::Stop(Error::HeadTrackerFailed)));
    assert!(!indexer.on_header(5));
    assert!(matches!(indexer.next_action(), Action::Stop(Error::HeadTrackerFailed)));
}

#[test]
fn failed_tracker_does_not_stop_work_below_the_known_head() {
    let mut indexer = indexer(2, 1000, 10, 2, None);
    assert_eq!(indexer.on_stream_lost(), Recovery::Reconnect { delay_ms: 100 });
    assert_eq!(indexer.on_stream_lost(), Recovery::Reconnect { delay_ms: 200 });
    assert_eq!(indexer.on_stream_lost(), Recovery::GiveUp);
    let mut delivered = Vec::new();
    let mut running = Vec::new();
    let stop = loop {
        match indexer.next_action() {
            Action::Deliver { block_number, .. } => delivered.push(block_number),
            Action::WaitForRateToken => running.push(indexer.on_token().unwrap()),
            Action::WaitForCompletion => {
                let (permit, result) = done(running.remove(0));
                indexer.on_completion(permit, result);
            }
            Action::Stop(error) => break error,
            Action::Save { .. } | Action::WaitForHead { .. } => panic!("not expected"),
        }
    };
    assert_eq!(stop, Error::HeadTrackerFailed);
    // both fetches were started before the loop found nothing left to do
    assert_eq!(running.len() + delivered.len(), 2);
}

#[test]
fn progress_counters_only_grow() {
    let mut indexer = indexer(3, 1000, 2, 10, Some(4));
    assert_eq!(indexer.chain_id(), 1);
    assert_eq!(
        indexer.progress(),
        Progress { last_fetched_block: None, last_saved_block: Some(4), current_head_number: 10 }
    );
    let mut last = indexer.progress();
    let mut running: Vec<Launch> = Vec::new();
    for step in 0..200 {
        match indexer.next_action() {
            Action::Deliver { .. } => {}
            Action::Save { .. } => {
                indexer.on_saved();
            }
            Action::WaitForRateToken => running.push(indexer.on_token().unwrap()),
            Action::WaitForCompletion => {
                let (permit, result) = done(running.remove(0));
                indexer.on_completion(permit, result);
            }
            Action::WaitForHead { past } => {
                if let Some(launch) = running.pop() {
                    let (permit, result) = done(launch);
                    indexer.on_completion(permit, result);
                } else if past < 14 {
                    indexer.on_header(past + 2);
                    indexer.on_header(past);
                } else {
                    break;
                }
            }
            Action::Stop(error) => panic!("stopped at step {step}: {}", error.message()),
        }
        let now = indexer.progress();
        assert!(now.last_fetched_block >= last.last_fetched_block);
        assert!(now.last_saved_block >= last.last_saved_block);
        assert!(now.current_head_number >= last.current_head_number);
        last = now;
    }
    assert_eq!(
        last,
        Progress {
            last_fetched_block: Some(13),
            last_saved_block: Some(12),
            current_head_number: 14
        }
    );
}
