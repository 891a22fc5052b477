use kharon::error::{ProcessError, RpcError};
use kharon::partition::ScanRange;
use kharon::scheduler::{
    conclude_run, plan_catch_up, worker_start, worker_step, CatchUpPlan, RunState,
    SchedulerConfig, WorkerReport, WorkerStep,
};

fn config(threshold: u128, budget: u128) -> SchedulerConfig {
    SchedulerConfig::new(threshold, budget).unwrap()
}

fn all_done(ranges: &[ScanRange]) -> Vec<WorkerReport> {
    ranges.iter().map(|r| WorkerReport::completed(*r)).collect()
}

fn fetch_failed() -> ProcessError {
    ProcessError::FetchFailed(RpcError::Transport)
}

#[test]
fn config_needs_positive_knobs() {
    assert!(SchedulerConfig::new(0, 3).is_none());
    assert!(SchedulerConfig::new(5, 0).is_none());
    assert!(SchedulerConfig::new(0, 0).is_none());
    let c = SchedulerConfig::new(1, 1).unwrap();
    assert_eq!(c.sequential_threshold(), 1);
    assert_eq!(c.worker_budget(), 1);
}

#[test]
fn config_defaults_to_five_blocks_and_three_workers() {
    let c = SchedulerConfig::default();
    assert_eq!(c.sequential_threshold(), 5);
    assert_eq!(c.worker_budget(), 3);
}

#[test]
fn no_gap_means_nothing_to_do() {
    let c = SchedulerConfig::default();
    assert!(matches!(plan_catch_up(100, 100, &c), CatchUpPlan::UpToDate));
    assert!(matches!(plan_catch_up(100, 99, &c), CatchUpPlan::UpToDate));
    assert!(plan_catch_up(100, 100, &c).ranges().is_empty());
    assert!(!plan_catch_up(100, 100, &c).is_concurrent());
}

#[test]
fn large_gap_is_partitioned_over_the_workers() {
    let plan = plan_catch_up(100, 150, &config(5, 3));
    assert!(plan.is_concurrent());
    assert_eq!(
        plan.ranges(),
        vec![
            ScanRange { start: 101, end: 117 },
            ScanRange { start: 118, end: 134 },
            ScanRange { start: 135, end: 150 },
        ]
    );
}

#[test]
fn small_gap_is_processed_in_sequence() {
    let plan = plan_catch_up(100, 103, &config(5, 3));
    assert!(!plan.is_concurrent());
    match plan {
        CatchUpPlan::Sequential(range) => assert_eq!(range, ScanRange { start: 101, end: 103 }),
        other => panic!("expected a sequential plan, got {:?}", other),
    }
    assert_eq!(
        plan_catch_up(100, 103, &config(5, 3)).ranges(),
        vec![ScanRange { start: 101, end: 103 }]
    );
}

#[test]
fn gap_at_the_threshold_is_still_sequential() {
    assert!(!plan_catch_up(100, 105, &config(5, 3)).is_concurrent());
    assert!(plan_catch_up(100, 106, &config(5, 3)).is_concurrent());
    assert!(!plan_catch_up(0, 3, &config(3, 3)).is_concurrent());
    assert!(plan_catch_up(0, 4, &config(3, 3)).is_concurrent());
}

#[test]
fn plan_starts_right_after_the_largest_watermark_that_has_a_gap() {
    let plan = plan_catch_up(u128::MAX - 1, u128::MAX, &config(5, 3));
    assert_eq!(plan.ranges(), vec![ScanRange { start: u128::MAX, end: u128::MAX }]);
    let wide = plan_catch_up(0, u128::MAX, &config(5, 2));
    assert_eq!(wide.ranges().len(), 2);
    assert_eq!(wide.ranges()[0].start, 1);
    assert_eq!(wide.ranges()[1].end, u128::MAX);
}

#[test]
fn run_walks_from_idle_to_advance() {
    let c = config(5, 3);
    let idle = RunState::Idle;
    let dispatched = idle.start(100, 150);
    assert_eq!(dispatched, RunState::Dispatched { last_scanned: 100, latest: 150 });
    let ranges = dispatched.plan(&c).ranges();
    assert_eq!(ranges.len(), 3);
    let joined = dispatched.join(&c, &all_done(&ranges));
    assert_eq!(joined, RunState::AllSucceeded { last_scanned: 100, latest: 150 });
    assert_eq!(joined.settle(), RunState::Advance { to: 150 });
}

#[test]
fn run_does_not_start_without_a_gap() {
    assert_eq!(RunState::Idle.start(100, 100), RunState::Idle);
    assert_eq!(RunState::Idle.start(100, 42), RunState::Idle);
    let c = config(5, 3);
    assert!(matches!(RunState::Idle.plan(&c), CatchUpPlan::UpToDate));
    assert_eq!(conclude_run(100, 100, &c, &vec![]), RunState::Idle);
}

#[test]
fn failed_block_leaves_the_watermark_and_is_reported() {
    let c = config(5, 3);
    let ranges = plan_catch_up(100, 150, &c).ranges();
    let reports = vec![
        WorkerReport::completed(ranges[0]),
        WorkerReport::failed(ranges[1], 120, fetch_failed()),
        WorkerReport::completed(ranges[2]),
    ];
    let joined = RunState::Idle.start(100, 150).join(&c, &reports);
    assert_eq!(joined, RunState::AnyFailed { last_scanned: 100, failed_height: 120 });
    assert_eq!(
        joined.settle(),
        RunState::Reported { watermark: 100, failed_height: 120 }
    );
    assert_eq!(
        conclude_run(100, 150, &c, &reports),
        RunState::Reported { watermark: 100, failed_height: 120 }
    );
}

#[test]
fn retry_after_a_failure_repeats_the_run() {
    let c = config(5, 3);
    let first_plan = plan_catch_up(100, 150, &c).ranges();
    let failed = vec![
        WorkerReport::failed(first_plan[0], 101, fetch_failed()),
        WorkerReport::completed(first_plan[1]),
        WorkerReport::completed(first_plan[2]),
    ];
    let watermark = match conclude_run(100, 150, &c, &failed) {
        RunState::Reported { watermark, .. } => watermark,
        other => panic!("expected a reported run, got {:?}", other),
    };
    assert_eq!(watermark, 100);
    let second_plan = plan_catch_up(watermark, 150, &c).ranges();
    assert_eq!(second_plan, first_plan);
    assert_eq!(
        conclude_run(watermark, 150, &c, &all_done(&second_plan)),
        RunState::Advance { to: 150 }
    );
}

#[test]
fn lowest_failing_range_is_the_one_reported() {
    let c = config(5, 3);
    let ranges = plan_catch_up(100, 150, &c).ranges();
    let reports = vec![
        WorkerReport::completed(ranges[0]),
        WorkerReport::failed(ranges[1], 130, fetch_failed()),
        WorkerReport::failed(ranges[2], 135, fetch_failed()),
    ];
    assert_eq!(
        conclude_run(100, 150, &c, &reports),
        RunState::Reported { watermark: 100, failed_height: 130 }
    );
}

#[test]
fn missing_report_counts_as_a_failure_of_its_range() {
    let c = config(5, 3);
    let ranges = plan_catch_up(100, 150, &c).ranges();
    let reports = vec![WorkerReport::completed(ranges[0]), WorkerReport::completed(ranges[1])];
    assert_eq!(
        conclude_run(100, 150, &c, &reports),
        RunState::Reported { watermark: 100, failed_height: 135 }
    );
    assert_eq!(
        conclude_run(100, 150, &c, &vec![]),
        RunState::Reported { watermark: 100, failed_height: 101 }
    );
}

#[test]
fn report_for_another_range_counts_as_a_failure() {
    let c = config(5, 3);
    let ranges = plan_catch_up(100, 150, &c).ranges();
    let reports = vec![
        WorkerReport::completed(ranges[0]),
        WorkerReport::completed(ScanRange { start: 118, end: 133 }),
        WorkerReport::completed(ranges[2]),
    ];
    assert_eq!(
        conclude_run(100, 150, &c, &reports),
        RunState::Reported { watermark: 100, failed_height: 118 }
    );
}

#[test]
fn failure_outside_its_range_blames_the_start_of_the_range() {
    let c = config(5, 3);
    let ranges = plan_catch_up(100, 150, &c).ranges();
    let reports = vec![
        WorkerReport::completed(ranges[0]),
        WorkerReport::failed(ranges[1], 999, fetch_failed()),
        WorkerReport::completed(ranges[2]),
    ];
    assert_eq!(
        conclude_run(100, 150, &c, &reports),
        RunState::Reported { watermark: 100, failed_height: 118 }
    );
}

#[test]
fn sequential_run_reports_the_block_that_failed() {
    let c = config(5, 3);
    let range = ScanRange { start: 101, end: 103 };
    assert_eq!(
        conclude_run(100, 103, &c, &vec![WorkerReport::failed(range, 102, fetch_failed())]),
        RunState::Reported { watermark: 100, failed_height: 102 }
    );
    assert_eq!(
        conclude_run(100, 103, &c, &vec![WorkerReport::completed(range)]),
        RunState::Advance { to: 103 }
    );
}

#[test]
fn extra_reports_are_ignored() {
    let c = config(5, 3);
    let range = ScanRange { start: 101, end: 103 };
    let reports = vec![
        WorkerReport::completed(range),
        WorkerReport::failed(ScanRange { start: 104, end: 110 }, 104, fetch_failed()),
    ];
    assert_eq!(conclude_run(100, 103, &c, &reports), RunState::Advance { to: 103 });
}

#[test]
fn finished_run_stays_as_it_is() {
    let c = config(5, 3);
    let done = vec![WorkerReport::completed(ScanRange { start: 1, end: 2 })];
    for state in [
        RunState::Advance { to: 150 },
        RunState::Reported { watermark: 100, failed_height: 120 },
    ] {
        assert_eq!(state.start(1, 2), state);
        assert_eq!(state.join(&c, &done), state);
        assert_eq!(state.settle(), state);
        assert!(matches!(state.plan(&c), CatchUpPlan::UpToDate));
    }
}

#[test]
fn steps_out_of_turn_change_nothing() {
    let c = config(5, 3);
    let dispatched = RunState::Dispatched { last_scanned: 100, latest: 150 };
    assert_eq!(dispatched.start(1, 2), dispatched);
    assert_eq!(dispatched.settle(), dispatched);
    assert_eq!(RunState::Idle.join(&c, &vec![]), RunState::Idle);
    assert_eq!(RunState::Idle.settle(), RunState::Idle);
    let verdict = RunState::AllSucceeded { last_scanned: 100, latest: 150 };
    assert_eq!(verdict.join(&c, &vec![]), verdict);
    assert_eq!(verdict.start(1, 2), verdict);
}

#[test]
fn worker_reports_say_what_they_were_made_of() {
    let range = ScanRange { start: 7, end: 9 };
    let done = WorkerReport::completed(range);
    assert_eq!(done.range, range);
    assert_eq!(done.failure, None);
    let failed = WorkerReport::failed(range, 8, ProcessError::FetchFailed(RpcError::Status(503)));
    assert_eq!(failed.range, range);
    let failure = failed.failure.unwrap();
    assert_eq!(failure.height, 8);
    assert_eq!(failure.error, ProcessError::FetchFailed(RpcError::Status(503)));
}

#[test]
fn worker_goes_through_a_small_gap_block_by_block() {
    let plan = plan_catch_up(100, 103, &config(5, 3));
    let range = plan.ranges()[0];
    let mut visited = Vec::new();
    let mut step = worker_start(range);
    let report = loop {
        match step {
            WorkerStep::Process(height) => {
                visited.push(height);
                step = worker_step(range, height, Ok(()));
            }
            WorkerStep::Finished(report) => break report,
        }
    };
    assert_eq!(visited, vec![101, 102, 103]);
    assert_eq!(report, WorkerReport::completed(range));
}

#[test]
fn worker_stops_at_the_first_block_that_fails() {
    let range = ScanRange { start: 118, end: 134 };
    assert_eq!(worker_start(range), WorkerStep::Process(118));
    assert_eq!(worker_step(range, 118, Ok(())), WorkerStep::Process(119));
    assert_eq!(worker_step(range, 119, Ok(())), WorkerStep::Process(120));
    assert_eq!(
        worker_step(range, 120, Err(fetch_failed())),
        WorkerStep::Finished(WorkerReport::failed(range, 120, fetch_failed()))
    );
    assert_eq!(
        worker_step(range, 134, Ok(())),
        WorkerStep::Finished(WorkerReport::completed(range))
    );
    assert_eq!(
        worker_step(range, 134, Err(fetch_failed())),
        WorkerStep::Finished(WorkerReport::failed(range, 134, fetch_failed()))
    );
}

#[test]
fn worker_finishes_at_the_largest_height() {
    let range = ScanRange { start: u128::MAX - 1, end: u128::MAX };
    assert_eq!(worker_step(range, u128::MAX - 1, Ok(())), WorkerStep::Process(u128::MAX));
    assert_eq!(
        worker_step(range, u128::MAX, Ok(())),
        WorkerStep::Finished(WorkerReport::completed(range))
    );
}

#[test]
fn worker_that_was_lost_fails_its_whole_range() {
    let c = config(5, 3);
    let ranges = plan_catch_up(100, 150, &c).ranges();
    let lost = WorkerReport::lost(ranges[2]);
    assert_eq!(lost, WorkerReport::failed(ranges[2], 135, fetch_failed()));
    let reports =
        vec![WorkerReport::completed(ranges[0]), WorkerReport::completed(ranges[1]), lost];
    assert_eq!(
        conclude_run(100, 150, &c, &reports),
        RunState::Reported { watermark: 100, failed_height: 135 }
    );
}
