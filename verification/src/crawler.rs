//! One tick of the crawler loop.
//!
//! The loop itself sleeps, reads and writes, so it belongs to the caller.
//! What a tick decides is here: whether there is anything to do, and what
//! becomes of the watermark once the workers are back. A tick never leaves
//! the watermark anywhere but where it was or at the chain head it saw.

use crate::error::{PersistenceError, RpcError};
use crate::network::Network;
use crate::partition::BlockHeight;
use crate::scheduler::{run_outcome, RunState, SchedulerConfig, WorkerReport};
use crate::watermark::{
    advance_outcome, marks_advanced, record_advanced, watermark_of, WatermarkStore, Watermarks,
};
use vstd::prelude::*;

verus! {

/// What the crawler loop is configured with.
#[derive(Debug)]
pub struct CrawlerConfig {
    poll_interval_seconds: u64,
    rpc_endpoint: String,
    scheduler: SchedulerConfig,
}

impl CrawlerConfig {
    #[verifier::type_invariant]
    spec fn valid(self) -> bool {
        self.poll_interval_seconds >= 1
    }

    /// Seconds between the end of one tick and the start of the next.
    pub closed spec fn interval(&self) -> u64 {
        self.poll_interval_seconds
    }

    /// Where the chain endpoint is.
    pub closed spec fn endpoint(&self) -> Seq<char> {
        self.rpc_endpoint@
    }

    /// The knobs of the scheduler.
    pub closed spec fn knobs(&self) -> SchedulerConfig {
        self.scheduler
    }

    /// A configuration, if the interval is positive.
    pub fn new(poll_interval_seconds: u64, rpc_endpoint: String, scheduler: SchedulerConfig) -> (config:
        Option<CrawlerConfig>)
        ensures
            config is Some <==> poll_interval_seconds >= 1,
            config matches Some(c) ==> c.interval() == poll_interval_seconds && c.endpoint()
                == rpc_endpoint@ && c.knobs() == scheduler,
    {
        if poll_interval_seconds >= 1 {
            Some(CrawlerConfig { poll_interval_seconds, rpc_endpoint, scheduler })
        } else {
            None
        }
    }

    /// A configuration with an interval of sixty seconds and the default
    /// knobs of the scheduler.
    pub fn with_defaults(rpc_endpoint: String) -> (config: CrawlerConfig)
        ensures
            config.interval() == 60,
            config.endpoint() == rpc_endpoint@,
            config.knobs().threshold() == 5,
            config.knobs().budget() == 3,
    {
        CrawlerConfig { poll_interval_seconds: 60, rpc_endpoint, scheduler: SchedulerConfig::default() }
    }

    /// Seconds between the end of one tick and the start of the next.
    pub fn poll_interval_seconds(&self) -> (seconds: u64)
        ensures
            seconds == self.interval(),
            seconds >= 1,
    {
        proof {
            use_type_invariant(self);
        }
        self.poll_interval_seconds
    }

    /// Where the chain endpoint is.
    pub fn rpc_endpoint(&self) -> (endpoint: &str)
        ensures
            endpoint@ == self.endpoint(),
    {
        self.rpc_endpoint.as_str()
    }

    /// The knobs of the scheduler.
    pub fn scheduler(&self) -> (scheduler: SchedulerConfig)
        ensures
            scheduler == self.knobs(),
    {
        self.scheduler
    }
}

/// How a tick ended.
#[derive(Clone, Copy, Debug, PartialEq, Eq, Structural)]
pub enum TickOutcome {
    /// The chain head could not be read. Nothing was done.
    Skipped(RpcError),
    /// The chain head is not past the watermark.
    UpToDate,
    /// Every block of the gap was processed and the watermark moved.
    Advanced { from: BlockHeight, to: BlockHeight },
    /// A block of the gap was not processed. The watermark stays, and the
    /// whole gap is tried again at the next tick.
    Failed { watermark: BlockHeight, failed_height: BlockHeight },
    /// Every block of the gap was processed, but the store did not take the
    /// new watermark. It stays, and the gap is processed again.
    NotPersisted { watermark: BlockHeight, error: PersistenceError },
    /// The run was handed back before its workers were joined.
    Unfinished,
}

/// The state of the run that a tick starts: none when the chain head could
/// not be read, else the run for the gap, which is idle when there is no
/// gap.
pub open spec fn tick_begun(last_scanned: BlockHeight, latest: Result<BlockHeight, RpcError>) -> Result<
    RunState,
    RpcError,
> {
    match latest {
        Ok(height) => Ok(RunState::Idle.started(last_scanned, height)),
        Err(e) => Err(e),
    }
}

/// Starts a tick from the watermark and from what reading the chain head
/// brought.
pub fn begin_tick(last_scanned: BlockHeight, latest: Result<BlockHeight, RpcError>) -> (begun: Result<
    RunState,
    RpcError,
>)
    ensures
        begun == tick_begun(last_scanned, latest),
{
    match latest {
        Ok(height) => Ok(RunState::Idle.start(last_scanned, height)),
        Err(e) => Err(e),
    }
}

/// The watermarks after a tick whose run ended in `state`: they move only
/// for a run that asks for it, and only if the store took the write.
pub open spec fn marks_after_tick(
    marks: Watermarks,
    network: Network,
    state: RunState,
    written: Result<(), PersistenceError>,
) -> Watermarks {
    match state {
        RunState::Advance { to } if written is Ok => marks_advanced(marks, network, to),
        _ => marks,
    }
}

/// Whether a tick whose run ended in `state` moves the watermark: only a
/// run that asks for it does, and only if the store took the write.
pub open spec fn tick_moves(state: RunState, written: Result<(), PersistenceError>) -> bool {
    state is Advance && written is Ok
}

/// How a tick whose run ended in `state` is reported.
pub open spec fn tick_outcome(
    marks: Watermarks,
    network: Network,
    state: RunState,
    written: Result<(), PersistenceError>,
) -> TickOutcome {
    let watermark = watermark_of(marks, network);
    match state {
        RunState::Idle => TickOutcome::UpToDate,
        RunState::Advance { to } => match written {
            Err(error) => TickOutcome::NotPersisted { watermark, error },
            Ok(_) => match advance_outcome(marks, network, to) {
                Ok(_) => TickOutcome::Advanced {
                    from: watermark,
                    to: watermark_of(marks_advanced(marks, network, to), network),
                },
                Err(error) => TickOutcome::NotPersisted { watermark, error },
            },
        },
        RunState::Reported { watermark: stays, failed_height } => TickOutcome::Failed {
            watermark: stays,
            failed_height,
        },
        _ => TickOutcome::Unfinished,
    }
}

/// Ends a tick: takes the state in which the run ended and, for a run that
/// asks to move the watermark, what the durable write of it brought, and
/// moves the watermark in the store if the write succeeded.
pub fn finish_tick(
    store: &mut WatermarkStore,
    network: Network,
    state: RunState,
    written: Result<(), PersistenceError>,
) -> (outcome: TickOutcome)
    ensures
        final(store).marks() == marks_after_tick(old(store).marks(), network, state, written),
        outcome == tick_outcome(old(store).marks(), network, state, written),
        forall|n: Network|
            watermark_of(final(store).marks(), n) >= watermark_of(old(store).marks(), n),
        forall|n: Network|
            final(store).record(n) == if n == network && tick_moves(state, written) {
                record_advanced(old(store).record(n), state->to)
            } else {
                old(store).record(n)
            },
{
    let watermark = store.read(network);
    match state {
        RunState::Idle => TickOutcome::UpToDate,
        RunState::Advance { to } => match written {
            Err(error) => TickOutcome::NotPersisted { watermark, error },
            Ok(_) => match store.advance(network, to) {
                Ok(_) => TickOutcome::Advanced { from: watermark, to: store.read(network) },
                Err(error) => TickOutcome::NotPersisted { watermark, error },
            },
        },
        RunState::Reported { watermark: stays, failed_height } => TickOutcome::Failed {
            watermark: stays,
            failed_height,
        },
        _ => TickOutcome::Unfinished,
    }
}

/// The watermarks after a whole tick: from the watermarks before it, what
/// reading the chain head brought, the reports of the workers and what the
/// durable write brought.
pub open spec fn marks_after_whole_tick(
    marks: Watermarks,
    network: Network,
    latest: Result<BlockHeight, RpcError>,
    config: SchedulerConfig,
    reports: Seq<WorkerReport>,
    written: Result<(), PersistenceError>,
) -> Watermarks {
    match latest {
        Err(_) => marks,
        Ok(height) => marks_after_tick(
            marks,
            network,
            run_outcome(watermark_of(marks, network), height, config, reports),
            written,
        ),
    }
}

/// A whole tick at once, for a caller that has everything in hand: what
/// reading the chain head brought, the reports of the workers for the plan
/// of that gap, and what the durable write brought.
pub fn complete_tick(
    store: &mut WatermarkStore,
    network: Network,
    latest: Result<BlockHeight, RpcError>,
    config: &SchedulerConfig,
    reports: &Vec<WorkerReport>,
    written: Result<(), PersistenceError>,
) -> (outcome: TickOutcome)
    ensures
        final(store).marks() == marks_after_whole_tick(
            old(store).marks(),
            network,
            latest,
            *config,
            reports@,
            written,
        ),
        outcome == match latest {
            Err(e) => TickOutcome::Skipped(e),
            Ok(height) => tick_outcome(
                old(store).marks(),
                network,
                run_outcome(watermark_of(old(store).marks(), network), height, *config, reports@),
                written,
            ),
        },
        forall|n: Network|
            watermark_of(final(store).marks(), n) >= watermark_of(old(store).marks(), n),
        forall|n: Network|
            final(store).record(n) == match latest {
                Ok(height) if n == network && tick_moves(
                    run_outcome(
                        watermark_of(old(store).marks(), network),
                        height,
                        *config,
                        reports@,
                    ),
                    written,
                ) => record_advanced(old(store).record(n), height),
                _ => old(store).record(n),
            },
{
    let last_scanned = store.read(network);
    match begin_tick(last_scanned, latest) {
        Err(e) => TickOutcome::Skipped(e),
        Ok(begun) => {
            let ended = begun.join(config, reports).settle();
            finish_tick(store, network, ended, written)
        },
    }
}

/// A tick leaves the watermark of its network where it was or at the chain
/// head it saw, never lower than before, and leaves the other networks
/// alone. It leaves everything as it was when the chain head could not be
/// read, when a worker did not report success, and when the store did not
/// take the write.
pub proof fn lemma_tick_is_consistent(
    marks: Watermarks,
    network: Network,
    latest: Result<BlockHeight, RpcError>,
    config: SchedulerConfig,
    reports: Seq<WorkerReport>,
    written: Result<(), PersistenceError>,
    other: Network,
)
    requires
        config.wf(),
    ensures
        ({
            let after = marks_after_whole_tick(marks, network, latest, config, reports, written);
            let before = watermark_of(marks, network);
            &&& watermark_of(after, other) >= watermark_of(marks, other)
            &&& other != network ==> watermark_of(after, other) == watermark_of(marks, other)
            &&& watermark_of(after, network) == before || (latest matches Ok(height)
                && watermark_of(after, network) == height)
            &&& (latest is Err || written is Err) ==> after == marks
            &&& latest matches Ok(height) ==> (before < height && !crate::scheduler::all_succeeded(
                crate::scheduler::plan_spec(
                    before,
                    height,
                    config.threshold(),
                    config.budget(),
                ).ranges(),
                reports,
            ) ==> after == marks)
        }),
{
    match latest {
        Err(_) => {},
        Ok(height) => {
            let before = watermark_of(marks, network);
            let state = run_outcome(before, height, config, reports);
            if before < height {
                crate::scheduler::lemma_advance_iff_all_succeeded(before, height, config, reports);
            }
            match state {
                RunState::Advance { to } => {
                    crate::watermark::lemma_advance_is_monotonic(marks, network, to, other);
                },
                _ => {},
            }
        },
    }
}

} // verus!
