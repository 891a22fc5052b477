//! Catch-up scheduling: how the gap between the watermark and the chain head
//! is worked off, and when a run may move the watermark.
//!
//! A run walks through the states of [`RunState`]. The caller performs what
//! a state asks for (dispatching workers, joining them) and hands the result
//! back; the decisions are taken here.

use crate::error::ProcessError;
use crate::partition::{
    lemma_partition_contiguous, lemma_partition_count, lemma_partition_covers, partition,
    partition_spec, BlockHeight, ScanRange,
};
use vstd::prelude::*;

verus! {

/// The two knobs of the scheduler.
#[derive(Clone, Copy, Debug, PartialEq, Eq, Structural)]
pub struct SchedulerConfig {
    sequential_threshold: u128,
    worker_budget: u128,
}

impl SchedulerConfig {
    #[verifier::type_invariant]
    spec fn valid(self) -> bool {
        self.wf()
    }

    /// Both knobs are positive.
    pub closed spec fn wf(&self) -> bool {
        self.sequential_threshold >= 1 && self.worker_budget >= 1
    }

    /// Largest gap that is still worked off one block at a time.
    pub closed spec fn threshold(&self) -> u128 {
        self.sequential_threshold
    }

    /// Largest number of concurrent workers.
    pub closed spec fn budget(&self) -> u128 {
        self.worker_budget
    }

    /// A configuration with the given knobs, if both are positive.
    pub fn new(sequential_threshold: u128, worker_budget: u128) -> (config: Option<
        SchedulerConfig,
    >)
        ensures
            config is Some <==> sequential_threshold >= 1 && worker_budget >= 1,
            config matches Some(c) ==> c.wf() && c.threshold() == sequential_threshold && c.budget()
                == worker_budget,
    {
        if sequential_threshold >= 1 && worker_budget >= 1 {
            Some(SchedulerConfig { sequential_threshold, worker_budget })
        } else {
            None
        }
    }

    /// Largest gap that is still worked off one block at a time.
    pub fn sequential_threshold(&self) -> (t: u128)
        ensures
            t == self.threshold(),
            t >= 1,
            self.wf(),
    {
        proof {
            use_type_invariant(self);
        }
        self.sequential_threshold
    }

    /// Largest number of concurrent workers.
    pub fn worker_budget(&self) -> (b: u128)
        ensures
            b == self.budget(),
            b >= 1,
            self.wf(),
    {
        proof {
            use_type_invariant(self);
        }
        self.worker_budget
    }
}

impl Default for SchedulerConfig {
    /// A threshold of five blocks and a budget of three workers.
    fn default() -> (config: SchedulerConfig)
        ensures
            config.wf(),
            config.threshold() == 5,
            config.budget() == 3,
    {
        SchedulerConfig { sequential_threshold: 5, worker_budget: 3 }
    }
}

/// How one gap is worked off.
#[derive(Debug)]
pub enum CatchUpPlan {
    /// The chain head is not past the watermark.
    UpToDate,
    /// The blocks of the range are processed one at a time, in increasing
    /// order, by the caller itself.
    Sequential(ScanRange),
    /// One concurrent worker per range; each worker goes through its range
    /// in increasing order.
    Partitioned(Vec<ScanRange>),
}

/// A plan as a mathematical value.
pub enum PlanView {
    UpToDate,
    Sequential(ScanRange),
    Partitioned(Seq<ScanRange>),
}

impl PlanView {
    /// The ranges to process, in the order in which reports are expected.
    pub open spec fn ranges(self) -> Seq<ScanRange> {
        match self {
            PlanView::UpToDate => Seq::empty(),
            PlanView::Sequential(r) => seq![r],
            PlanView::Partitioned(rs) => rs,
        }
    }
}

impl View for CatchUpPlan {
    type V = PlanView;

    open spec fn view(&self) -> PlanView {
        match *self {
            CatchUpPlan::UpToDate => PlanView::UpToDate,
            CatchUpPlan::Sequential(r) => PlanView::Sequential(r),
            CatchUpPlan::Partitioned(rs) => PlanView::Partitioned(rs@),
        }
    }
}

/// The plan for the gap between `last_scanned` and `latest`: nothing when
/// there is no gap, one sequential range when the gap does not exceed the
/// threshold, else the partition of the gap over the worker budget.
pub open spec fn plan_spec(
    last_scanned: BlockHeight,
    latest: BlockHeight,
    threshold: u128,
    budget: u128,
) -> PlanView {
    if latest <= last_scanned {
        PlanView::UpToDate
    } else if latest - last_scanned <= threshold {
        PlanView::Sequential(ScanRange { start: (last_scanned + 1) as u128, end: latest })
    } else {
        PlanView::Partitioned(partition_spec((last_scanned + 1) as u128, latest, budget))
    }
}

/// Whatever the plan, its ranges follow one another from the block after the
/// watermark to the chain head, and there are no more of them than workers
/// allowed (a sequential plan has one).
pub proof fn lemma_plan_covers_gap(
    last_scanned: BlockHeight,
    latest: BlockHeight,
    threshold: u128,
    budget: u128,
)
    requires
        budget >= 1,
        last_scanned < latest,
    ensures
        ({
            let ranges = plan_spec(last_scanned, latest, threshold, budget).ranges();
            &&& 1 <= ranges.len() <= budget
            &&& crate::partition::contiguous(ranges)
            &&& crate::partition::covers(ranges, last_scanned + 1, latest as int)
            &&& crate::partition::disjoint(ranges)
            &&& crate::partition::ascending(ranges)
            &&& ranges.first().start == last_scanned + 1
            &&& ranges.last().end == latest
        }),
{
    let first = (last_scanned + 1) as u128;
    let ranges = plan_spec(last_scanned, latest, threshold, budget).ranges();
    if latest - last_scanned <= threshold {
        let r = ScanRange { start: first, end: latest };
        assert(ranges =~= seq![r]);
        assert forall|h: int| #[trigger]
            crate::partition::in_some_range(ranges, h) <==> first <= h <= latest by {
            if first <= h <= latest {
                assert(ranges[0].contains(h));
            }
        }
    } else {
        lemma_partition_count(first, latest, budget);
        lemma_partition_contiguous(first, latest, budget);
        lemma_partition_covers(first, latest, budget);
    }
}

impl CatchUpPlan {
    /// The ranges to process, in the order in which reports are expected.
    pub fn ranges(&self) -> (ranges: Vec<ScanRange>)
        ensures
            ranges@ == self@.ranges(),
    {
        match self {
            CatchUpPlan::UpToDate => Vec::new(),
            CatchUpPlan::Sequential(r) => {
                let mut ranges = Vec::new();
                ranges.push(*r);
                assert(ranges@ =~= seq![*r]);
                ranges
            },
            CatchUpPlan::Partitioned(rs) => {
                let mut ranges = Vec::new();
                let mut i: usize = 0;
                while i < rs.len()
                    invariant
                        i <= rs.len(),
                        ranges@ == rs@.take(i as int),
                    decreases rs.len() - i,
                {
                    ranges.push(rs[i]);
                    i += 1;
                    assert(ranges@ =~= rs@.take(i as int));
                }
                assert(rs@.take(rs.len() as int) =~= rs@);
                ranges
            },
        }
    }

    /// Whether the ranges are to run concurrently.
    pub fn is_concurrent(&self) -> (b: bool)
        ensures
            b == (self@ is Partitioned),
    {
        match self {
            CatchUpPlan::Partitioned(_) => true,
            _ => false,
        }
    }
}

/// Decides how the gap between the watermark and the chain head is worked
/// off.
pub fn plan_catch_up(last_scanned: BlockHeight, latest: BlockHeight, config: &SchedulerConfig) -> (plan:
    CatchUpPlan)
    ensures
        plan@ == plan_spec(last_scanned, latest, config.threshold(), config.budget()),
{
    let threshold = config.sequential_threshold();
    let budget = config.worker_budget();
    if latest <= last_scanned {
        CatchUpPlan::UpToDate
    } else if latest - last_scanned <= threshold {
        CatchUpPlan::Sequential(ScanRange { start: last_scanned + 1, end: latest })
    } else {
        CatchUpPlan::Partitioned(partition(last_scanned + 1, latest, budget))
    }
}

/// The block at which a worker gave up, and why.
#[derive(Clone, Copy, Debug, PartialEq, Eq, Structural)]
pub struct BlockFailure {
    pub height: BlockHeight,
    pub error: ProcessError,
}

/// What one worker returns when it is joined: the range it was given and,
/// if it did not get through, the first block that failed.
#[derive(Clone, Copy, Debug, PartialEq, Eq, Structural)]
pub struct WorkerReport {
    pub range: ScanRange,
    pub failure: Option<BlockFailure>,
}

impl WorkerReport {
    /// The report of a worker that processed every block of `range`.
    pub fn completed(range: ScanRange) -> (report: WorkerReport)
        ensures
            report == (WorkerReport { range, failure: None }),
    {
        WorkerReport { range, failure: None }
    }

    /// The report that stands in for a worker that could not be joined:
    /// nothing is known of its range, so its first block is taken to have
    /// failed.
    pub fn lost(range: ScanRange) -> (report: WorkerReport)
        ensures
            report == (WorkerReport {
                range,
                failure: Some(
                    BlockFailure {
                        height: range.start,
                        error: ProcessError::FetchFailed(crate::error::RpcError::Transport),
                    },
                ),
            }),
    {
        WorkerReport {
            range,
            failure: Some(
                BlockFailure {
                    height: range.start,
                    error: ProcessError::FetchFailed(crate::error::RpcError::Transport),
                },
            ),
        }
    }

    /// The report of a worker that gave up at `height`.
    pub fn failed(range: ScanRange, height: BlockHeight, error: ProcessError) -> (report:
        WorkerReport)
        ensures
            report == (WorkerReport { range, failure: Some(BlockFailure { height, error }) }),
    {
        WorkerReport { range, failure: Some(BlockFailure { height, error }) }
    }
}

/// What a worker does next.
#[derive(Clone, Copy, Debug, PartialEq, Eq, Structural)]
pub enum WorkerStep {
    /// Process the block of this height, then come back with the outcome.
    Process(BlockHeight),
    /// Stop and hand this report to whoever joins the worker.
    Finished(WorkerReport),
}

/// The step of a worker on `range` after the block `height` was processed
/// with `outcome`: the next block in increasing order while blocks succeed
/// and the range lasts, the report of completion after its last block, and
/// the report of the failure at the first block that fails.
pub open spec fn worker_step_after(
    range: ScanRange,
    height: BlockHeight,
    outcome: Result<(), ProcessError>,
) -> WorkerStep {
    match outcome {
        Err(error) => WorkerStep::Finished(
            WorkerReport { range, failure: Some(BlockFailure { height, error }) },
        ),
        Ok(_) => if height < range.end {
            WorkerStep::Process((height + 1) as u128)
        } else {
            WorkerStep::Finished(WorkerReport { range, failure: None })
        },
    }
}

/// The first step of a worker: the first block of its range.
pub fn worker_start(range: ScanRange) -> (step: WorkerStep)
    ensures
        step == WorkerStep::Process(range.start),
{
    WorkerStep::Process(range.start)
}

/// The step of a worker after it processed the block `height` of its
/// range.
pub fn worker_step(range: ScanRange, height: BlockHeight, outcome: Result<(), ProcessError>) -> (step:
    WorkerStep)
    ensures
        step == worker_step_after(range, height, outcome),
{
    match outcome {
        Err(error) => WorkerStep::Finished(WorkerReport::failed(range, height, error)),
        Ok(_) => {
            if height < range.end {
                WorkerStep::Process(height + 1)
            } else {
                WorkerStep::Finished(WorkerReport::completed(range))
            }
        },
    }
}

/// A worker whose blocks all succeed goes through its range block by
/// block: `done` blocks after the first it is at the block `done` higher,
/// and after the last block it reports completion.
pub proof fn lemma_worker_walks_its_range(range: ScanRange, done: int)
    requires
        range.wf(),
        0 <= done < range.width(),
    ensures
        worker_step_after(range, (range.start + done) as u128, Ok(())) == if done + 1
            < range.width() {
            WorkerStep::Process((range.start + done + 1) as u128)
        } else {
            WorkerStep::Finished(WorkerReport { range, failure: None })
        },
{
}

/// The `i`-th report answers the `i`-th range and says that every block of
/// it was processed.
pub open spec fn succeeded_at(ranges: Seq<ScanRange>, reports: Seq<WorkerReport>, i: int) -> bool {
    &&& 0 <= i < ranges.len()
    &&& i < reports.len()
    &&& reports[i].range == ranges[i]
    &&& reports[i].failure is None
}

/// Every range has its report, and none reports a failure.
pub open spec fn all_succeeded(ranges: Seq<ScanRange>, reports: Seq<WorkerReport>) -> bool {
    forall|i: int| 0 <= i < ranges.len() ==> succeeded_at(ranges, reports, i)
}

/// The first range, in ascending order, that lacks a report of success.
pub open spec fn first_failed(ranges: Seq<ScanRange>, reports: Seq<WorkerReport>, i: int) -> bool {
    &&& 0 <= i < ranges.len()
    &&& !succeeded_at(ranges, reports, i)
    &&& forall|j: int| 0 <= j < i ==> succeeded_at(ranges, reports, j)
}

/// The block to blame when range `i` lacks a report of success: the block
/// the worker names if it lies in the range, else the first block of the
/// range, of which nothing is known.
pub open spec fn blamed_height(ranges: Seq<ScanRange>, reports: Seq<WorkerReport>, i: int) -> BlockHeight {
    if i < reports.len() && reports[i].range == ranges[i] && reports[i].failure is Some
        && ranges[i].contains(reports[i].failure->0.height as int) {
        reports[i].failure->0.height
    } else {
        ranges[i].start
    }
}

/// The states of one catch-up run. `Advance` and `Reported` are final.
#[derive(Clone, Copy, Debug, PartialEq, Eq, Structural)]
pub enum RunState {
    /// No run is under way.
    Idle,
    /// The ranges of the plan for this gap are with the workers.
    Dispatched { last_scanned: BlockHeight, latest: BlockHeight },
    /// Every worker returned and every block of the gap was processed.
    AllSucceeded { last_scanned: BlockHeight, latest: BlockHeight },
    /// Every worker returned and some block was not processed.
    AnyFailed { last_scanned: BlockHeight, failed_height: BlockHeight },
    /// The watermark is to move to `to`.
    Advance { to: BlockHeight },
    /// The watermark stays where it was; `failed_height` goes to the log.
    Reported { watermark: BlockHeight, failed_height: BlockHeight },
}

impl RunState {
    /// Whether the run is over.
    pub open spec fn is_final(self) -> bool {
        self is Advance || self is Reported
    }

    /// The state after a tick found `latest` at the chain head: a run
    /// starts only from `Idle` and only when there is a gap.
    pub open spec fn started(self, last_scanned: BlockHeight, latest: BlockHeight) -> RunState {
        if self is Idle && last_scanned < latest {
            RunState::Dispatched { last_scanned, latest }
        } else {
            self
        }
    }

    /// The state after every worker was joined.
    pub open spec fn joined(self, config: SchedulerConfig, reports: Seq<WorkerReport>) -> RunState {
        match self {
            RunState::Dispatched { last_scanned, latest } => {
                let ranges = plan_spec(
                    last_scanned,
                    latest,
                    config.threshold(),
                    config.budget(),
                ).ranges();
                if all_succeeded(ranges, reports) {
                    RunState::AllSucceeded { last_scanned, latest }
                } else {
                    let i = choose|i: int| first_failed(ranges, reports, i);
                    RunState::AnyFailed {
                        last_scanned,
                        failed_height: blamed_height(ranges, reports, i),
                    }
                }
            },
            _ => self,
        }
    }

    /// The state after the outcome was decided.
    pub open spec fn settled(self) -> RunState {
        match self {
            RunState::AllSucceeded { last_scanned, latest } => RunState::Advance { to: latest },
            RunState::AnyFailed { last_scanned, failed_height } => RunState::Reported {
                watermark: last_scanned,
                failed_height,
            },
            _ => self,
        }
    }

    /// Where the watermark stands once the run is in this state, given
    /// where it stood before the run. Only `Advance` moves it.
    pub open spec fn watermark_after(self, before: BlockHeight) -> BlockHeight {
        match self {
            RunState::Advance { to } => if to > before {
                to
            } else {
                before
            },
            _ => before,
        }
    }

    /// Starts a run for the gap between `last_scanned` and `latest`, if
    /// there is one and no run is under way.
    pub fn start(self, last_scanned: BlockHeight, latest: BlockHeight) -> (next: RunState)
        ensures
            next == self.started(last_scanned, latest),
    {
        match self {
            RunState::Idle => {
                if last_scanned < latest {
                    RunState::Dispatched { last_scanned, latest }
                } else {
                    RunState::Idle
                }
            },
            _ => self,
        }
    }

    /// The plan whose ranges this state asks the caller to process.
    pub fn plan(&self, config: &SchedulerConfig) -> (plan: CatchUpPlan)
        ensures
            plan@ == match *self {
                RunState::Dispatched { last_scanned, latest } => plan_spec(
                    last_scanned,
                    latest,
                    config.threshold(),
                    config.budget(),
                ),
                _ => PlanView::UpToDate,
            },
    {
        match self {
            RunState::Dispatched { last_scanned, latest } => plan_catch_up(
                *last_scanned,
                *latest,
                config,
            ),
            _ => CatchUpPlan::UpToDate,
        }
    }

    /// Takes the reports of all workers, in the order of the ranges they
    /// were given, and tells whether the whole gap was processed.
    pub fn join(self, config: &SchedulerConfig, reports: &Vec<WorkerReport>) -> (next: RunState)
        ensures
            next == self.joined(*config, reports@),
    {
        match self {
            RunState::Dispatched { last_scanned, latest } => {
                let ranges = plan_catch_up(last_scanned, latest, config).ranges();
                let mut i: usize = 0;
                while i < ranges.len()
                    invariant
                        i <= ranges.len(),
                        self == (RunState::Dispatched { last_scanned, latest }),
                        ranges@ == plan_spec(
                            last_scanned,
                            latest,
                            config.threshold(),
                            config.budget(),
                        ).ranges(),
                        forall|j: int| 0 <= j < i ==> succeeded_at(ranges@, reports@, j),
                    decreases ranges.len() - i,
                {
                    let range = ranges[i];
                    let mut failed_height = range.start;
                    let mut ok = false;
                    if i < reports.len() {
                        let report = reports[i];
                        if report.range == range {
                            match report.failure {
                                None => {
                                    ok = true;
                                },
                                Some(failure) => {
                                    if range.holds(failure.height) {
                                        failed_height = failure.height;
                                    }
                                },
                            }
                        }
                    }
                    if !ok {
                        proof {
                            let k = i as int;
                            assert(first_failed(ranges@, reports@, k));
                            assert(!all_succeeded(ranges@, reports@));
                            lemma_first_failed_unique(
                                ranges@,
                                reports@,
                                k,
                                choose|k: int| first_failed(ranges@, reports@, k),
                            );
                        }
                        return RunState::AnyFailed { last_scanned, failed_height };
                    }
                    i += 1;
                }
                RunState::AllSucceeded { last_scanned, latest }
            },
            _ => self,
        }
    }

    /// Turns the verdict on the run into its final state.
    pub fn settle(self) -> (next: RunState)
        ensures
            next == self.settled(),
    {
        match self {
            RunState::AllSucceeded { last_scanned, latest } => RunState::Advance { to: latest },
            RunState::AnyFailed { last_scanned, failed_height } => RunState::Reported {
                watermark: last_scanned,
                failed_height,
            },
            _ => self,
        }
    }
}

/// There is one first range without a report of success, if any.
pub proof fn lemma_first_failed_unique(
    ranges: Seq<ScanRange>,
    reports: Seq<WorkerReport>,
    i: int,
    j: int,
)
    requires
        first_failed(ranges, reports, i),
        first_failed(ranges, reports, j),
    ensures
        i == j,
{
    if i < j {
        assert(succeeded_at(ranges, reports, i));
    }
    if j < i {
        assert(succeeded_at(ranges, reports, j));
    }
}

/// The final state of a whole run, from the watermark and chain head it
/// started with and the reports its workers returned.
pub open spec fn run_outcome(
    last_scanned: BlockHeight,
    latest: BlockHeight,
    config: SchedulerConfig,
    reports: Seq<WorkerReport>,
) -> RunState {
    RunState::Idle.started(last_scanned, latest).joined(config, reports).settled()
}

/// Decides a whole run at once: `Idle` when there was no gap, `Advance` when
/// every block of the gap was processed, else `Reported`.
pub fn conclude_run(
    last_scanned: BlockHeight,
    latest: BlockHeight,
    config: &SchedulerConfig,
    reports: &Vec<WorkerReport>,
) -> (end: RunState)
    ensures
        end == run_outcome(last_scanned, latest, *config, reports@),
        latest <= last_scanned ==> end is Idle,
        last_scanned < latest ==> end.is_final(),
{
    RunState::Idle.start(last_scanned, latest).join(config, reports).settle()
}

/// A run over a gap moves the watermark to the chain head when every range
/// of its plan has a report of success, and to nowhere else.
pub proof fn lemma_advance_iff_all_succeeded(
    last_scanned: BlockHeight,
    latest: BlockHeight,
    config: SchedulerConfig,
    reports: Seq<WorkerReport>,
)
    requires
        config.wf(),
        last_scanned < latest,
    ensures
        ({
            let ranges = plan_spec(last_scanned, latest, config.threshold(), config.budget()).ranges();
            let end = run_outcome(last_scanned, latest, config, reports);
            &&& all_succeeded(ranges, reports) ==> end == (RunState::Advance { to: latest })
                && end.watermark_after(last_scanned) == latest
            &&& !all_succeeded(ranges, reports) ==> end is Reported && end->watermark
                == last_scanned && end.watermark_after(last_scanned) == last_scanned
        }),
{
}

/// All or nothing: when a worker reports a block that failed, the watermark
/// after the run is the watermark before it, whatever the other workers
/// report.
pub proof fn lemma_all_or_nothing(
    last_scanned: BlockHeight,
    latest: BlockHeight,
    config: SchedulerConfig,
    reports: Seq<WorkerReport>,
    i: int,
)
    requires
        config.wf(),
        0 <= i < reports.len(),
        i < plan_spec(last_scanned, latest, config.threshold(), config.budget()).ranges().len(),
        reports[i].failure is Some,
    ensures
        run_outcome(last_scanned, latest, config, reports).watermark_after(last_scanned)
            == last_scanned,
        !(run_outcome(last_scanned, latest, config, reports) is Advance),
{
    let ranges = plan_spec(last_scanned, latest, config.threshold(), config.budget()).ranges();
    assert(!succeeded_at(ranges, reports, i));
}

/// A retry is the same run again: after a run that failed, the next run
/// over the same chain head gets the same plan, and when all of its workers
/// succeed the watermark stands where the first run would have put it.
pub proof fn lemma_retry_repeats_run(
    last_scanned: BlockHeight,
    latest: BlockHeight,
    config: SchedulerConfig,
    failed: Seq<WorkerReport>,
    retried: Seq<WorkerReport>,
)
    requires
        config.wf(),
        last_scanned < latest,
        !all_succeeded(
            plan_spec(last_scanned, latest, config.threshold(), config.budget()).ranges(),
            failed,
        ),
        all_succeeded(
            plan_spec(last_scanned, latest, config.threshold(), config.budget()).ranges(),
            retried,
        ),
    ensures
        ({
            let after_failure = run_outcome(last_scanned, latest, config, failed).watermark_after(
                last_scanned,
            );
            &&& after_failure == last_scanned
            &&& plan_spec(after_failure, latest, config.threshold(), config.budget()) == plan_spec(
                last_scanned,
                latest,
                config.threshold(),
                config.budget(),
            )
            &&& run_outcome(after_failure, latest, config, retried).watermark_after(after_failure)
                == latest
        }),
{
    lemma_advance_iff_all_succeeded(last_scanned, latest, config, failed);
    lemma_advance_iff_all_succeeded(last_scanned, latest, config, retried);
}

/// A run that is over stays as it is, whatever is handed to it.
pub proof fn lemma_final_states_absorb(
    state: RunState,
    last_scanned: BlockHeight,
    latest: BlockHeight,
    config: SchedulerConfig,
    reports: Seq<WorkerReport>,
)
    requires
        state.is_final(),
    ensures
        state.started(last_scanned, latest) == state,
        state.joined(config, reports) == state,
        state.settled() == state,
{
}

/// The watermark never falls over a run.
pub proof fn lemma_run_never_regresses(state: RunState, before: BlockHeight)
    ensures
        state.watermark_after(before) >= before,
{
}

} // verus!
