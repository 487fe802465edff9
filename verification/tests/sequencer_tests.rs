use chain_indexer::sequencer::{Sequenced, Sequencer};
use chain_indexer::task::{FetchOutcome, FetchResult, FetchTask};

fn block(n: u64) -> FetchResult<String> {
    FetchResult::of(FetchTask::first(n), FetchOutcome::Block(format!("block-{n}")))
}

fn released(answer: Sequenced<String>) -> Vec<(u64, String)> {
    match answer {
        Sequenced::Released(blocks) => blocks,
        other => panic!("expected a release, got {}", describe(&other)),
    }
}

fn describe(answer: &Sequenced<String>) -> String {
    match answer {
        Sequenced::Released(blocks) => format!("Released({})", blocks.len()),
        Sequenced::Retry(task) => format!("Retry({}, {})", task.block_number, task.attempt),
        Sequenced::Fatal(n) => format!("Fatal({n})"),
        Sequenced::Rejected(n) => format!("Rejected({n})"),
    }
}

fn numbers(blocks: &[(u64, String)]) -> Vec<u64> {
    blocks.iter().map(|(n, _)| *n).collect()
}

#[test]
fn releases_expected_block_at_once() {
    let mut sequencer: Sequencer<String> = Sequencer::new(100, 4);
    let out = released(sequencer.accept(block(100)));
    assert_eq!(out, vec![(100, "block-100".to_string())]);
    assert_eq!(sequencer.next_expected(), 101);
    assert_eq!(sequencer.held(), 0);
}

#[test]
fn holds_blocks_that_arrive_early() {
    let mut sequencer: Sequencer<String> = Sequencer::new(100, 4);
    assert_eq!(released(sequencer.accept(block(102))), vec![]);
    assert_eq!(released(sequencer.accept(block(101))), vec![]);
    assert_eq!(sequencer.next_expected(), 100);
    assert_eq!(sequencer.held(), 2);
    let out = released(sequencer.accept(block(100)));
    assert_eq!(
        out,
        vec![
            (100, "block-100".to_string()),
            (101, "block-101".to_string()),
            (102, "block-102".to_string()),
        ]
    );
    assert_eq!(sequencer.next_expected(), 103);
    assert_eq!(sequencer.held(), 0);
}

#[test]
fn release_stops_at_the_first_gap() {
    let mut sequencer: Sequencer<String> = Sequencer::new(10, 8);
    assert_eq!(released(sequencer.accept(block(11))), vec![]);
    assert_eq!(released(sequencer.accept(block(13))), vec![]);
    let out = released(sequencer.accept(block(10)));
    assert_eq!(numbers(&out), vec![10, 11]);
    assert_eq!(sequencer.next_expected(), 12);
    assert_eq!(sequencer.held(), 1);
    let out = released(sequencer.accept(block(12)));
    assert_eq!(numbers(&out), vec![12, 13]);
    assert_eq!(sequencer.next_expected(), 14);
}

fn permutations(items: Vec<u64>) -> Vec<Vec<u64>> {
    if items.len() <= 1 {
        return vec![items];
    }
    let mut all = Vec::new();
    for i in 0..items.len() {
        let mut rest = items.clone();
        let first = rest.remove(i);
        for mut tail in permutations(rest) {
            tail.insert(0, first);
            all.push(tail);
        }
    }
    all
}

#[test]
fn every_arrival_order_gives_the_same_output() {
    let orders = permutations(vec![100, 101, 102, 103, 104]);
    assert_eq!(orders.len(), 120);
    for order in orders {
        let mut sequencer: Sequencer<String> = Sequencer::new(100, 5);
        let mut output = Vec::new();
        for n in &order {
            output.extend(released(sequencer.accept(block(*n))));
        }
        assert_eq!(numbers(&output), vec![100, 101, 102, 103, 104]);
        for (n, payload) in &output {
            assert_eq!(payload, &format!("block-{n}"));
        }
        assert_eq!(sequencer.next_expected(), 105);
        assert_eq!(sequencer.held(), 0);
    }
}

#[test]
fn absent_block_asks_for_a_retry_and_fills_no_gap() {
    let mut sequencer: Sequencer<String> = Sequencer::new(100, 4);
    let absent = FetchResult::of(FetchTask::first(100), FetchOutcome::Absent);
    match sequencer.accept(absent) {
        Sequenced::Retry(task) => {
            assert_eq!(task.block_number, 100);
            assert_eq!(task.attempt, 1);
        }
        other => panic!("expected a retry, got {}", describe(&other)),
    }
    assert_eq!(sequencer.next_expected(), 100);
    assert_eq!(sequencer.held(), 0);
}

#[test]
fn transient_error_asks_for_a_retry_with_the_next_attempt() {
    let mut sequencer: Sequencer<String> = Sequencer::new(7, 2);
    let failed = FetchResult::of(
        FetchTask { block_number: 8, attempt: 4 },
        FetchOutcome::Transient,
    );
    match sequencer.accept(failed) {
        Sequenced::Retry(task) => {
            assert_eq!(task, FetchTask { block_number: 8, attempt: 5 });
        }
        other => panic!("expected a retry, got {}", describe(&other)),
    }
}

#[test]
fn attempt_count_stops_at_its_maximum() {
    let task = FetchTask { block_number: 3, attempt: u32::MAX };
    assert_eq!(task.retry(), FetchTask { block_number: 3, attempt: u32::MAX });
    let task = FetchTask { block_number: 3, attempt: u32::MAX - 1 };
    assert_eq!(task.retry().attempt, u32::MAX);
    assert_eq!(FetchTask::first(9), FetchTask { block_number: 9, attempt: 0 });
}

#[test]
fn fatal_error_is_reported() {
    let mut sequencer: Sequencer<String> = Sequencer::new(100, 4);
    let fatal = FetchResult::of(FetchTask::first(101), FetchOutcome::Fatal);
    assert!(matches!(sequencer.accept(fatal), Sequenced::Fatal(101)));
    assert_eq!(sequencer.next_expected(), 100);
    assert_eq!(sequencer.held(), 0);
}

#[test]
fn results_that_are_not_awaited_are_rejected() {
    let mut sequencer: Sequencer<String> = Sequencer::new(100, 3);
    // below the next expected block
    assert!(matches!(sequencer.accept(block(99)), Sequenced::Rejected(99)));
    // at the end of the window and beyond
    assert!(matches!(sequencer.accept(block(103)), Sequenced::Rejected(103)));
    assert!(matches!(sequencer.accept(block(1000)), Sequenced::Rejected(1000)));
    // held already
    assert_eq!(released(sequencer.accept(block(102))), vec![]);
    assert!(matches!(sequencer.accept(block(102)), Sequenced::Rejected(102)));
    // released already
    assert_eq!(numbers(&released(sequencer.accept(block(100)))), vec![100]);
    assert!(matches!(sequencer.accept(block(100)), Sequenced::Rejected(100)));
    // an absent result for a block that is not awaited asks for nothing
    let stale = FetchResult::<String>::of(FetchTask::first(100), FetchOutcome::Absent);
    assert!(matches!(sequencer.accept(stale), Sequenced::Rejected(100)));
    assert_eq!(sequencer.next_expected(), 101);
    assert_eq!(sequencer.held(), 1);
}

#[test]
fn admits_tells_which_blocks_are_awaited() {
    let mut sequencer: Sequencer<String> = Sequencer::new(100, 3);
    assert!(!sequencer.admits(99));
    assert!(sequencer.admits(100));
    assert!(sequencer.admits(102));
    assert!(!sequencer.admits(103));
    released(sequencer.accept(block(101)));
    assert!(!sequencer.admits(101));
    assert_eq!(sequencer.capacity(), 3);
}

#[test]
fn largest_number_is_never_awaited() {
    let mut sequencer: Sequencer<String> = Sequencer::new(u64::MAX - 1, 4);
    assert!(sequencer.admits(u64::MAX - 1));
    assert!(!sequencer.admits(u64::MAX));
    assert!(matches!(sequencer.accept(block(u64::MAX)), Sequenced::Rejected(u64::MAX)));
    let out = released(sequencer.accept(block(u64::MAX - 1)));
    assert_eq!(numbers(&out), vec![u64::MAX - 1]);
    assert_eq!(sequencer.next_expected(), u64::MAX);
    assert!(!sequencer.admits(u64::MAX));
}

#[test]
fn window_never_holds_as_many_blocks_as_its_capacity() {
    let mut sequencer: Sequencer<String> = Sequencer::new(0, 4);
    for n in [3u64, 2, 1, 4, 5, 9] {
        let _ = sequencer.accept(block(n));
        assert!(sequencer.held() < sequencer.capacity());
    }
    assert_eq!(sequencer.held(), 3);
    assert_eq!(numbers(&released(sequencer.accept(block(0)))), vec![0, 1, 2, 3]);
}

#[test]
fn later_blocks_wait_for_a_block_that_keeps_failing() {
    let mut sequencer: Sequencer<String> = Sequencer::new(100, 8);
    let mut output = Vec::new();
    for n in [100u64, 101, 102, 104, 105, 106] {
        output.extend(released(sequencer.accept(block(n))));
    }
    assert_eq!(numbers(&output), vec![100, 101, 102]);
    let mut task = FetchTask::first(103);
    for _ in 0..5 {
        match sequencer.accept(FetchResult::of(task, FetchOutcome::Absent)) {
            Sequenced::Retry(again) => task = again,
            other => panic!("expected a retry, got {}", describe(&other)),
        }
        assert_eq!(sequencer.next_expected(), 103);
    }
    assert_eq!(task.attempt, 5);
    let out = released(sequencer.accept(FetchResult::of(
        task,
        FetchOutcome::Block("block-103".to_string()),
    )));
    assert_eq!(numbers(&out), vec![103, 104, 105, 106]);
}
