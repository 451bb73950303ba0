//! The periodic tasks that keep a market going, and the pacing of a task.
//!
//! A task runs one operation on one instrument at a fixed rate. After each
//! run it sleeps until the next scheduled instant, counted from the
//! schedule and not from the end of the run, so that a slow run does not
//! shift the runs after it. A run on an instrument that is not listed, or
//! at a moment when the clock cannot be read, is skipped.

use crate::book::lemma_sweep_spares;
use crate::book::lemma_untouched_is_spared;
use crate::book::spared;
use crate::market::clean_outcome;
use crate::market::cleaned;
use crate::market::matched;
use crate::market::same_elsewhere;
use crate::market::untouched;
use crate::market::Market;
use crate::order::Stock;
use crate::record::reported;
use crate::time::NANOS_PER_SECOND;
use vstd::prelude::*;

verus! {

/// The highest rate at which a task runs, in runs per second.
pub const TICKRATE: u32 = 10_000;

/// What a task does at each run.
#[derive(Clone, Copy, Debug, PartialEq, Eq, Structural)]
pub enum Operation {
    /// Submit the orders of the trend model.
    GenerateTrend,
    /// Quote a ladder of limit orders around the last price.
    Straddle,
    /// Run a matching pass.
    FindTrades,
    /// Sweep the expired orders.
    CleanBooks,
    /// Drain the ledger into the bars.
    ProcessTransactions,
    /// Refresh the indicators.
    UpdateStats,
}

/// One periodic task: an operation on an instrument at a rate in runs per
/// second.
#[derive(Clone, Copy, Debug, PartialEq, Eq, Structural)]
pub struct Task {
    pub operation: Operation,
    pub stock: Stock,
    pub tickrate: u32,
}

/// The schedule of one task: the instant of the run that is due, in
/// nanoseconds on the task's clock, and the time from one run to the next.
#[derive(Clone, Copy, Debug, PartialEq, Eq, Structural)]
pub struct Pace {
    pub last_tick: u64,
    pub tick_interval: u32,
}

/// The tasks of one instrument.
pub open spec fn spec_make_market(stock: Stock) -> Seq<Task> {
    seq![
        Task { operation: Operation::GenerateTrend, stock, tickrate: TICKRATE },
        Task { operation: Operation::Straddle, stock, tickrate: TICKRATE },
        Task { operation: Operation::FindTrades, stock, tickrate: TICKRATE },
        Task { operation: Operation::CleanBooks, stock, tickrate: 100 },
        Task { operation: Operation::ProcessTransactions, stock, tickrate: 1_000 },
        Task { operation: Operation::UpdateStats, stock, tickrate: 1_000 },
    ]
}

/// The nanoseconds from one run to the next at a rate: a second divided by
/// the rate, rounded down, and the longest interval at rate zero.
pub open spec fn spec_tick_interval(tickrate: u32) -> u32 {
    if tickrate == 0 {
        u32::MAX
    } else {
        (NANOS_PER_SECOND as int / tickrate as int) as u32
    }
}

/// The tasks of one instrument: order flow and matching at the full rate,
/// the sweep at a hundredth of it, draining and indicators at a tenth.
pub fn make_market(stock: Stock) -> (tasks: Vec<Task>)
    ensures
        tasks@ == spec_make_market(stock),
{
    let mut tasks: Vec<Task> = Vec::new();
    tasks.push(Task { operation: Operation::GenerateTrend, stock, tickrate: TICKRATE });
    tasks.push(Task { operation: Operation::Straddle, stock, tickrate: TICKRATE });
    tasks.push(Task { operation: Operation::FindTrades, stock, tickrate: TICKRATE });
    tasks.push(Task { operation: Operation::CleanBooks, stock, tickrate: TICKRATE / 100 });
    tasks.push(Task { operation: Operation::ProcessTransactions, stock, tickrate: TICKRATE / 10 });
    tasks.push(Task { operation: Operation::UpdateStats, stock, tickrate: TICKRATE / 10 });
    proof {
        assert(tasks@ =~= spec_make_market(stock));
    }
    tasks
}

/// The nanoseconds from one run to the next at a rate.
pub fn tick_interval(tickrate: u32) -> (nanos: u32)
    ensures
        nanos == spec_tick_interval(tickrate),
{
    if tickrate == 0 {
        u32::MAX
    } else {
        NANOS_PER_SECOND / tickrate
    }
}

impl Pace {
    /// The schedule of a task whose first run is at `now`.
    pub fn start(now: u64, tickrate: u32) -> (pace: Pace)
        ensures
            pace.last_tick == now,
            pace.tick_interval == spec_tick_interval(tickrate),
    {
        Pace { last_tick: now, tick_interval: tick_interval(tickrate) }
    }

    /// How long to sleep at `now`, when a run has ended: until the next
    /// scheduled instant, and not at all where that instant has passed.
    pub open spec fn spec_rest(self, now: u64) -> int {
        if now < self.last_tick + self.tick_interval {
            self.last_tick + self.tick_interval - now
        } else {
            0
        }
    }

    /// Ends a run at `now`: returns the nanoseconds to sleep before the
    /// next run, and moves the schedule on by one interval, however long
    /// the run took.
    pub fn after_tick(&mut self, now: u64) -> (rest: u64)
        requires
            old(self).last_tick + old(self).tick_interval <= u64::MAX,
        ensures
            rest == old(self).spec_rest(now),
            final(self).last_tick == old(self).last_tick + old(self).tick_interval,
            final(self).tick_interval == old(self).tick_interval,
    {
        let next: u64 = self.last_tick + self.tick_interval as u64;
        let rest: u64 = if now < next {
            next - now
        } else {
            0
        };
        self.last_tick = next;
        rest
    }
}

/// One run of the matching task. Returns whether the instrument is listed;
/// where it is not, the run is skipped.
pub fn find_trades(market: &mut Market, stock: Stock) -> (ran: bool)
    requires
        old(market).wf(),
    ensures
        final(market).wf(),
        ran == old(market).listed(stock),
        !ran ==> untouched(*old(market), *final(market)),
        ran ==> same_elsewhere(*old(market), *final(market), stock) && exists|trades: nat|
            matched(old(market).record(stock), final(market).record(stock), trades),
{
    match crate::market::find_trades(market, stock) {
        Ok(trades) => {
            proof {
                assert(matched(
                    old(market).record(stock),
                    market.record(stock),
                    trades as nat,
                ));
            }
            true
        },
        Err(_) => false,
    }
}

/// One run of the sweeping task. Returns whether the book was swept; the
/// run is skipped where the instrument is not listed or the clock cannot
/// be read. Swept or not, a listed instrument stays listed, every order
/// without a lifetime stays in its book, and no order enters it.
pub fn clean_books(market: &mut Market, stock: Stock) -> (ran: bool)
    requires
        old(market).wf(),
    ensures
        final(market).wf(),
        ran ==> old(market).listed(stock) && same_elsewhere(*old(market), *final(market), stock)
            && exists|now: i64|
            final(market).record(stock) == #[trigger] cleaned(old(market).record(stock), now),
        !ran ==> untouched(*old(market), *final(market)),
        old(market).listed(stock) ==> final(market).listed(stock) && spared(
            old(market).record(stock).quotes.bids,
            final(market).record(stock).quotes.bids,
        ) && spared(
            old(market).record(stock).quotes.asks,
            final(market).record(stock).quotes.asks,
        ),
{
    let result = crate::market::clean_books(market, stock);
    proof {
        let before = old(market).record(stock).quotes;
        if result.is_ok() {
            let now = choose|now: i64|
                clean_outcome(*old(market), *market, stock, now, result);
            assert(market.record(stock) == cleaned(old(market).record(stock), now));
            lemma_sweep_spares(before.bids, now);
            lemma_sweep_spares(before.asks, now);
        } else {
            lemma_untouched_is_spared(before.bids);
            lemma_untouched_is_spared(before.asks);
        }
    }
    result.is_ok()
}

/// Reports the instrument's trades and lets go of the trades that left the
/// ledger: the trades of the whole seconds leave it for the bars, those
/// with an id also for the window of recent trades, and the bars are
/// compressed. Returns whether the instrument is listed.
pub fn report_transactions(market: &mut Market, stock: Stock) -> (ran: bool)
    requires
        old(market).wf(),
    ensures
        final(market).wf(),
        ran == old(market).listed(stock),
        !ran ==> untouched(*old(market), *final(market)),
        ran ==> same_elsewhere(*old(market), *final(market), stock) && final(market).record(stock)
            == reported(old(market).record(stock)),
{
    match crate::market::report_transactions(market, stock) {
        Ok(_) => true,
        Err(_) => false,
    }
}

/// One run of the draining task, which is a report. Returns whether the
/// instrument is listed; where it is not, the run is skipped.
pub fn process_transactions(market: &mut Market, stock: Stock) -> (ran: bool)
    requires
        old(market).wf(),
    ensures
        final(market).wf(),
        ran == old(market).listed(stock),
        !ran ==> untouched(*old(market), *final(market)),
        ran ==> same_elsewhere(*old(market), *final(market), stock) && final(market).record(stock)
            == reported(old(market).record(stock)),
{
    report_transactions(market, stock)
}

} // verus!
