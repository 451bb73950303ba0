//! Bars and their roll-up from seconds into minutes, hours and days.
//!
//! A history keeps four levels of bars, seconds first. Each level has a
//! live part, whose bars may still be folded into a bar of the next level,
//! and a historic part, which shows the children of the bar folded last.
//! The window of a parent is the range of the children's buckets that make
//! up its bucket. The children in a window are folded once a later child
//! shows that the window is over, and a window without children yields no
//! bar.

use crate::globals::granularity_max_measurements;
use crate::globals::next_granularity;
use crate::globals::spec_granularity_at;
use crate::globals::spec_granularity_max_measurements;
use crate::globals::spec_next_granularity;
use crate::globals::GRANULARITY;
use crate::price::Price;
use crate::price::HIGHEST_KEY;
use crate::price::LOWEST_KEY;
use crate::price::SIGN_BIT;
use crate::time::MTime;
use crate::transaction::Transaction;
use itertools::Itertools;
use vstd::prelude::*;

verus! {

/// One bar: the bucket it covers at its resolution, the volume traded in
/// it, and the highest, lowest, first and last price.
#[derive(Clone, Copy, Debug, PartialEq, Eq, Structural)]
pub struct ObStat {
    pub tick: u64,
    pub granularity: GRANULARITY,
    pub volume: u64,
    pub high: Price,
    pub low: Price,
    pub open: Price,
    pub close: Price,
}

impl Default for ObStat {
    /// A bar that has seen no trade: no volume, the high at the lowest
    /// price and the low at the highest, so that the first trade sets both.
    fn default() -> (bar: ObStat)
        ensures
            bar == (ObStat {
                tick: 0,
                granularity: GRANULARITY::INSTANT,
                volume: 0,
                high: Price { key: LOWEST_KEY },
                low: Price { key: HIGHEST_KEY },
                open: Price { key: SIGN_BIT },
                close: Price { key: SIGN_BIT },
            }),
    {
        ObStat {
            tick: 0,
            granularity: GRANULARITY::INSTANT,
            volume: 0,
            high: Price::lowest(),
            low: Price::highest(),
            open: Price::zero(),
            close: Price::zero(),
        }
    }
}

/// A volume held to what 64 bits can carry.
pub open spec fn capped(volume: int) -> int {
    if volume > u64::MAX {
        u64::MAX as int
    } else {
        volume
    }
}

/// The sum of the volumes of some bars.
pub open spec fn total_volume(bars: Seq<ObStat>) -> int
    decreases bars.len(),
{
    if bars.len() == 0 {
        0
    } else {
        total_volume(bars.drop_last()) + bars.last().volume
    }
}

/// The highest high of some bars, and the lowest price where there are
/// none.
pub open spec fn high_of(bars: Seq<ObStat>) -> Price
    decreases bars.len(),
{
    if bars.len() == 0 {
        Price { key: LOWEST_KEY }
    } else {
        high_of(bars.drop_last()).spec_max(bars.last().high)
    }
}

/// The lowest low of some bars, and the highest price where there are none.
pub open spec fn low_of(bars: Seq<ObStat>) -> Price
    decreases bars.len(),
{
    if bars.len() == 0 {
        Price { key: HIGHEST_KEY }
    } else {
        low_of(bars.drop_last()).spec_min(bars.last().low)
    }
}

/// The bar that a run of children folds into: their volumes added up, the
/// extremes of their highs and lows, the open of the first and the close of
/// the last, in the bucket of the first child.
pub open spec fn parent_of(children: Seq<ObStat>, granularity: GRANULARITY) -> ObStat
    recommends
        children.len() > 0,
        spec_granularity_max_measurements(granularity) > 0,
{
    ObStat {
        tick: (children.first().tick as int / spec_granularity_max_measurements(
            granularity,
        )) as u64,
        granularity: spec_next_granularity(granularity),
        volume: capped(total_volume(children)) as u64,
        high: high_of(children),
        low: low_of(children),
        open: children.first().open,
        close: children.last().close,
    }
}

/// How many bars lie before the first one beyond `edge`.
pub open spec fn first_beyond(bars: Seq<ObStat>, edge: int) -> int
    decreases bars.len(),
{
    if bars.len() == 0 || bars.first().tick > edge {
        0
    } else {
        1 + first_beyond(bars.drop_first(), edge)
    }
}

/// What folding leaves: the parents made, the children that stay live, and
/// the children of the parent made last.
pub struct Folded {
    pub parents: Seq<ObStat>,
    pub rest: Seq<ObStat>,
    pub last_run: Seq<ObStat>,
}

/// Folds the windows that end at `edge`, `edge + ratio`, ... as long as the
/// last tick seen lies beyond the window's end: the bars up to the
/// first one beyond the edge become one parent, unless there are none.
pub open spec fn fold_runs(
    bars: Seq<ObStat>,
    edge: int,
    last_tick: int,
    granularity: GRANULARITY,
) -> Folded
    decreases
        (if last_tick > edge {
            last_tick - edge
        } else {
            0
        }),
{
    let ratio = spec_granularity_max_measurements(granularity);
    if bars.len() == 0 || last_tick <= edge || ratio <= 0 {
        Folded { parents: Seq::empty(), rest: bars, last_run: Seq::empty() }
    } else {
        let n = first_beyond(bars, edge);
        let tail = fold_runs(bars.skip(n), edge + ratio, last_tick, granularity);
        if n == 0 {
            tail
        } else {
            Folded {
                parents: seq![parent_of(bars.take(n), granularity)] + tail.parents,
                rest: tail.rest,
                last_run: if tail.last_run.len() > 0 {
                    tail.last_run
                } else {
                    bars.take(n)
                },
            }
        }
    }
}

/// The last bucket of the window that a bucket lies in, where `ratio`
/// buckets make a window: windows begin at the multiples of `ratio`.
pub open spec fn window_end(tick: int, ratio: int) -> int {
    (tick / ratio) * ratio + ratio - 1
}

/// Folds the live bars of one level: the first window is the one that the
/// first bar lies in, and the last tick seen is that of the last bar.
pub open spec fn fold_level(bars: Seq<ObStat>, granularity: GRANULARITY) -> Folded {
    if bars.len() == 0 {
        Folded { parents: Seq::empty(), rest: bars, last_run: Seq::empty() }
    } else {
        fold_runs(
            bars,
            window_end(bars.first().tick as int, spec_granularity_max_measurements(granularity)),
            bars.last().tick as int,
            granularity,
        )
    }
}

/// A bucket lies in its window: the window ends at or behind it and begins
/// at or before it.
pub proof fn lemma_window_end(tick: int, ratio: int)
    requires
        0 < ratio,
    ensures
        (tick / ratio) * ratio <= tick <= window_end(tick, ratio),
        tick >= 0 ==> tick / ratio >= 0 && (tick / ratio) * ratio >= 0,
{
    vstd::arithmetic::div_mod::lemma_fundamental_div_mod(tick, ratio);
    vstd::arithmetic::div_mod::lemma_mod_bound(tick, ratio);
    assert(ratio * (tick / ratio) == (tick / ratio) * ratio) by (nonlinear_arith);
    if tick >= 0 {
        vstd::arithmetic::div_mod::lemma_div_is_ordered(0, tick, ratio);
        assert((tick / ratio) * ratio >= 0) by (nonlinear_arith)
            requires
                tick / ratio >= 0,
                ratio > 0,
        ;
    }
}

/// The buckets of the window with the index `window` are those from
/// `window * ratio` to `window * ratio + ratio - 1`.
pub proof fn lemma_window_index(tick: int, ratio: int, window: int)
    requires
        0 < ratio,
        window * ratio <= tick,
    ensures
        window <= tick / ratio,
        window * ratio + ratio - 1 <= window_end(tick, ratio),
        tick <= window * ratio + ratio - 1 ==> tick / ratio == window,
{
    vstd::arithmetic::div_mod::lemma_div_multiples_vanish(window, ratio);
    assert(ratio * window == window * ratio) by (nonlinear_arith);
    vstd::arithmetic::div_mod::lemma_div_is_ordered(window * ratio, tick, ratio);
    vstd::arithmetic::mul::lemma_mul_inequality(window, tick / ratio, ratio);
    if tick <= window * ratio + ratio - 1 {
        vstd::arithmetic::div_mod::lemma_div_multiples_vanish_fancy(window, ratio - 1, ratio);
        vstd::arithmetic::div_mod::lemma_div_is_ordered(tick, ratio * window + (ratio - 1), ratio);
    }
}

/// Whether bars of this resolution fold into a coarser one.
pub open spec fn folds(granularity: GRANULARITY) -> bool {
    granularity == GRANULARITY::SECOND || granularity == GRANULARITY::MINUTE || granularity
        == GRANULARITY::HOUR
}

/// The position that `first_beyond` gives is the one before which no tick
/// is beyond the edge and at which the tick is.
pub proof fn lemma_first_beyond(bars: Seq<ObStat>, edge: int, p: int)
    requires
        0 <= p <= bars.len(),
        forall|i: int| 0 <= i < p ==> (#[trigger] bars[i]).tick <= edge,
        p < bars.len() ==> bars[p].tick > edge,
    ensures
        first_beyond(bars, edge) == p,
    decreases p,
{
    if p > 0 {
        let rest = bars.drop_first();
        assert forall|i: int| 0 <= i < p - 1 implies (#[trigger] rest[i]).tick <= edge by {
            assert(rest[i] == bars[i + 1]);
        }
        if p - 1 < rest.len() {
            assert(rest[p - 1] == bars[p]);
        }
        lemma_first_beyond(rest, edge, p - 1);
    }
}

/// The first index whose tick is beyond `edge`, or the length where none is.
fn position_beyond(bars: &Vec<ObStat>, edge: u128) -> (index: usize)
    ensures
        index == first_beyond(bars@, edge as int),
        0 <= index <= bars@.len(),
{
    let n = bars.len();
    let mut i: usize = 0;
    while i < n && bars[i].tick as u128 <= edge
        invariant
            n == bars.len(),
            0 <= i <= n,
            forall|k: int| 0 <= k < i ==> (#[trigger] bars@[k]).tick <= edge,
        decreases n - i,
    {
        i += 1;
    }
    proof {
        lemma_first_beyond(bars@, edge as int, i as int);
    }
    i
}

/// Folds a run of children into their parent.
fn aggregate(children: &Vec<ObStat>, granularity: GRANULARITY) -> (parent: ObStat)
    requires
        children@.len() > 0,
        folds(granularity),
    ensures
        parent == parent_of(children@, granularity),
{
    let n = children.len();
    let mut high = Price::lowest();
    let mut low = Price::highest();
    let mut volume: u64 = 0;
    let mut i: usize = 0;
    while i < n
        invariant
            n == children.len(),
            0 <= i <= n,
            high == high_of(children@.take(i as int)),
            low == low_of(children@.take(i as int)),
            volume == capped(total_volume(children@.take(i as int))),
            total_volume(children@.take(i as int)) >= 0,
        decreases n - i,
    {
        let bar = children[i];
        proof {
            assert(children@.take(i + 1).drop_last() =~= children@.take(i as int));
            assert(children@.take(i + 1).last() == bar);
        }
        high = high.max(bar.high);
        low = low.min(bar.low);
        volume = if volume > u64::MAX - bar.volume {
            u64::MAX
        } else {
            volume + bar.volume
        };
        i += 1;
    }
    proof {
        assert(children@.take(n as int) =~= children@);
    }
    let ratio = granularity_max_measurements(granularity) as u64;
    ObStat {
        tick: children[0].tick / ratio,
        granularity: next_granularity(granularity),
        volume,
        high,
        low,
        open: children[0].open,
        close: children[n - 1].close,
    }
}

/// Folds the complete runs at the head of `measurements` into bars of the
/// next coarser resolution and takes them out of it. Returns the parents in
/// the order of their windows, and the children of the last parent (none
/// where no parent was made).
pub fn downgrade_granularity(measurements: &mut Vec<ObStat>, granularity: GRANULARITY) -> (folded:
    (Vec<ObStat>, Vec<ObStat>))
    requires
        folds(granularity),
    ensures
        folded.0@ == fold_level(old(measurements)@, granularity).parents,
        folded.1@ == fold_level(old(measurements)@, granularity).last_run,
        final(measurements)@ == fold_level(old(measurements)@, granularity).rest,
{
    let mut target: Vec<ObStat> = Vec::new();
    let mut subject: Vec<ObStat> = Vec::new();
    if measurements.len() == 0 {
        return (target, subject);
    }
    let ratio = granularity_max_measurements(granularity) as u64;
    let last_tick = measurements[measurements.len() - 1].tick;
    let first = measurements[0].tick;
    proof {
        lemma_window_end(first as int, ratio as int);
    }
    let mut edge: u128 = (first / ratio) as u128 * ratio as u128 + (ratio as u128 - 1);
    let ghost whole = fold_level(measurements@, granularity);
    proof {
        let f = fold_runs(measurements@, edge as int, last_tick as int, granularity);
        assert(target@ + f.parents =~= f.parents);
    }
    while measurements.len() > 0 && last_tick as u128 > edge
        invariant
            folds(granularity),
            ratio == spec_granularity_max_measurements(granularity),
            0 < ratio <= 60,
            edge <= u64::MAX + ratio,
            whole.parents == target@ + fold_runs(
                measurements@,
                edge as int,
                last_tick as int,
                granularity,
            ).parents,
            whole.rest == fold_runs(measurements@, edge as int, last_tick as int, granularity).rest,
            whole.last_run == if fold_runs(
                measurements@,
                edge as int,
                last_tick as int,
                granularity,
            ).last_run.len() > 0 {
                fold_runs(measurements@, edge as int, last_tick as int, granularity).last_run
            } else {
                subject@
            },
        decreases
            (if last_tick > edge {
                last_tick - edge
            } else {
                0
            }),
    {
        let ghost bars = measurements@;
        let ghost tail = fold_runs(
            bars.skip(first_beyond(bars, edge as int)),
            edge + ratio,
            last_tick as int,
            granularity,
        );
        let index = position_beyond(measurements, edge);
        if index > 0 {
            let mut run = measurements.split_off(index);
            std::mem::swap(measurements, &mut run);
            proof {
                assert(run@ =~= bars.take(index as int));
                assert(measurements@ =~= bars.skip(index as int));
            }
            let parent = aggregate(&run, granularity);
            let ghost made = target@;
            target.push(parent);
            subject = run;
            proof {
                assert(made.push(parent) + tail.parents =~= made + (seq![parent] + tail.parents));
            }
            edge += ratio as u128;
        } else {
            // the window is empty: move on to the one that holds the first bar
            proof {
                lemma_first_beyond_bounds(bars, edge as int);
            }
            let gap: u128 = measurements[0].tick as u128 - edge;
            let windows: u128 = (gap + (ratio as u128 - 1)) / ratio as u128;
            proof {
                assert(windows >= 1 && (windows - 1) * ratio < gap <= windows * ratio && windows
                    * ratio < gap + ratio) by (nonlinear_arith)
                    requires
                        gap > 0,
                        ratio > 0,
                        windows == (gap + (ratio - 1)) / (ratio as int),
                ;
                lemma_skip_empty_windows(
                    bars,
                    edge as int,
                    last_tick as int,
                    granularity,
                    windows as nat,
                );
            }
            edge += windows * ratio as u128;
        }
    }
    (target, subject)
}

/// Windows that end before the first bar are empty and fold nothing:
/// folding from the first of them gives what folding from the window after
/// the last of them gives.
pub proof fn lemma_skip_empty_windows(
    bars: Seq<ObStat>,
    edge: int,
    last_tick: int,
    granularity: GRANULARITY,
    windows: nat,
)
    requires
        spec_granularity_max_measurements(granularity) > 0,
        bars.len() > 0,
        bars.first().tick > edge + (windows - 1) * spec_granularity_max_measurements(granularity),
    ensures
        fold_runs(bars, edge, last_tick, granularity) == fold_runs(
            bars,
            edge + windows * spec_granularity_max_measurements(granularity),
            last_tick,
            granularity,
        ),
    decreases windows,
{
    let ratio = spec_granularity_max_measurements(granularity);
    if windows > 0 {
        assert(edge + windows * ratio == edge + ratio + (windows - 1) * ratio) by (nonlinear_arith);
        assert(windows * ratio >= ratio) by (nonlinear_arith)
            requires
                windows >= 1,
                ratio > 0,
        ;
        if last_tick > edge {
            assert((windows - 1) * ratio >= 0) by (nonlinear_arith)
                requires
                    windows >= 1,
                    ratio > 0,
            ;
            assert(first_beyond(bars, edge) == 0);
            assert(bars.skip(0) =~= bars);
            assert(edge + ratio + (windows - 2) * ratio == edge + (windows - 1) * ratio)
                by (nonlinear_arith);
            lemma_skip_empty_windows(bars, edge + ratio, last_tick, granularity, (windows - 1) as nat);
        }
    } else {
        assert(edge + windows * ratio == edge) by (nonlinear_arith)
            requires
                windows == 0,
        ;
    }
}

/// The bars of a history as plain sequences, the finest level first.
pub struct Levels {
    pub live: Seq<Seq<ObStat>>,
    pub historic: Seq<Seq<ObStat>>,
}

/// What a level holds once the finer levels have been folded into it: its
/// own live bars, then the parents that the level below gives up.
pub open spec fn fed_level(v: Levels, level: int) -> Seq<ObStat>
    decreases level,
{
    if level <= 0 {
        v.live[0]
    } else {
        v.live[level] + fold_level(fed_level(v, level - 1), spec_granularity_at(level - 1)).parents
    }
}

/// The historic bars of a level after a compression: the children of the
/// parent folded last, or what was there where none was folded.
pub open spec fn shown_level(v: Levels, level: int) -> Seq<ObStat> {
    let run = fold_level(fed_level(v, level), spec_granularity_at(level)).last_run;
    if run.len() > 0 {
        run
    } else {
        v.historic[level]
    }
}

/// A history after a compression: seconds, minutes and hours keep what
/// could not be folded, days take what the hours give up, and each of the
/// three finer levels shows the children of its last parent.
pub open spec fn compressed(v: Levels) -> Levels {
    Levels {
        live: seq![
            fold_level(fed_level(v, 0), GRANULARITY::SECOND).rest,
            fold_level(fed_level(v, 1), GRANULARITY::MINUTE).rest,
            fold_level(fed_level(v, 2), GRANULARITY::HOUR).rest,
            fed_level(v, 3),
        ],
        historic: seq![shown_level(v, 0), shown_level(v, 1), shown_level(v, 2), v.historic[3]],
    }
}

/// The resolution kept at a level of a history.
fn granularity_at(level: usize) -> (granularity: GRANULARITY)
    requires
        level < 4,
    ensures
        granularity == spec_granularity_at(level as int),
        level < 3 ==> folds(granularity),
{
    if level == 0 {
        GRANULARITY::SECOND
    } else if level == 1 {
        GRANULARITY::MINUTE
    } else if level == 2 {
        GRANULARITY::HOUR
    } else {
        GRANULARITY::DAY
    }
}

/// The bars of one instrument at four resolutions: seconds, minutes, hours
/// and days, in this order.
pub struct HistoryBuffer {
    /// Per level, the bars that may still be folded into the next level.
    pub _live_data: Vec<Vec<ObStat>>,
    /// Per level, the children of the bar that was folded last.
    pub _historic_data: Vec<Vec<ObStat>>,
}

impl View for HistoryBuffer {
    type V = Levels;

    /// The bars of both parts, level by level.
    open spec fn view(&self) -> Levels {
        Levels {
            live: self._live_data@.map_values(|bars: Vec<ObStat>| bars@),
            historic: self._historic_data@.map_values(|bars: Vec<ObStat>| bars@),
        }
    }
}

impl HistoryBuffer {
    /// The live bars of a level.
    pub open spec fn live(&self, level: int) -> Seq<ObStat> {
        self._live_data@[level]@
    }

    /// The historic bars of a level.
    pub open spec fn historic(&self, level: int) -> Seq<ObStat> {
        self._historic_data@[level]@
    }

    /// Both parts have the four levels.
    pub open spec fn wf(&self) -> bool {
        self._live_data@.len() == 4 && self._historic_data@.len() == 4
    }

    /// What a level holds once the finer levels have been folded into it.
    pub open spec fn fed(&self, level: int) -> Seq<ObStat> {
        fed_level(self@, level)
    }

    /// The historic bars of a level after a compression.
    pub open spec fn shown(&self, level: int) -> Seq<ObStat> {
        shown_level(self@, level)
    }

    /// A history without bars.
    pub fn new() -> (history: HistoryBuffer)
        ensures
            history.wf(),
            forall|level: int| 0 <= level < 4 ==> #[trigger] history.live(level) == Seq::<ObStat>::empty(),
            forall|level: int| 0 <= level < 4 ==> #[trigger] history.historic(level) == Seq::<ObStat>::empty(),
    {
        let mut live: Vec<Vec<ObStat>> = Vec::new();
        let mut historic: Vec<Vec<ObStat>> = Vec::new();
        let mut i: usize = 0;
        while i < 4
            invariant
                0 <= i <= 4,
                live@.len() == i,
                historic@.len() == i,
                forall|level: int| 0 <= level < i ==> (#[trigger] live@[level])@ == Seq::<ObStat>::empty(),
                forall|level: int| 0 <= level < i ==> (#[trigger] historic@[level])@ == Seq::<ObStat>::empty(),
            decreases 4 - i,
        {
            live.push(Vec::new());
            historic.push(Vec::new());
            i += 1;
        }
        HistoryBuffer { _live_data: live, _historic_data: historic }
    }

    /// Folds every complete run of seconds into minutes, then of minutes
    /// into hours, then of hours into days. The parents of a level join the
    /// live bars of the next before that level is folded in turn; what
    /// cannot be folded yet stays live. The historic part of a level shows
    /// the children of the parent folded last. Bars keep their order.
    pub fn compress(&mut self)
        requires
            old(self).wf(),
        ensures
            final(self).wf(),
            final(self)@ == compressed(old(self)@),
            forall|level: int|
                0 <= level < 3 ==> #[trigger] final(self).live(level) == fold_level(
                    old(self).fed(level),
                    spec_granularity_at(level),
                ).rest,
            final(self).live(3) == old(self).fed(3),
            forall|level: int|
                0 <= level < 3 ==> #[trigger] final(self).historic(level) == old(self).shown(level),
            final(self).historic(3) == old(self).historic(3),
    {
        let mut i: usize = 0;
        while i < 3
            invariant
                0 <= i <= 3,
                self.wf(),
                old(self).wf(),
                forall|level: int|
                    0 <= level < i ==> #[trigger] self.live(level) == fold_level(
                        old(self).fed(level),
                        spec_granularity_at(level),
                    ).rest,
                self.live(i as int) == old(self).fed(i as int),
                forall|level: int| i < level < 4 ==> #[trigger] self.live(level) == old(self).live(level),
                forall|level: int|
                    0 <= level < i ==> #[trigger] self.historic(level) == old(self).shown(level),
                forall|level: int|
                    i <= level < 4 ==> #[trigger] self.historic(level) == old(self).historic(level),
            decreases 3 - i,
        {
            let granularity = granularity_at(i);
            let ghost before = *self;
            let (mut parents, run) = downgrade_granularity(&mut self._live_data[i], granularity);
            let ghost folded = *self;
            let ghost promoted = parents@;
            let ghost children = run@;
            self._live_data[i + 1].append(&mut parents);
            let ghost appended = *self;
            if run.len() > 0 {
                self._historic_data[i] = run;
            }
            proof {
                assert(before.live(i as int) == old(self).fed(i as int));
                assert(folded._historic_data@ == before._historic_data@);
                assert(appended._historic_data@ == before._historic_data@);
                assert(self._live_data@ == appended._live_data@);
                assert(old(self).fed(i + 1) == old(self).live(i + 1) + fold_level(
                    old(self).fed(i as int),
                    spec_granularity_at(i as int),
                ).parents);
                assert forall|level: int| 0 <= level < 4 implies #[trigger] self.live(level) == (if level
                    == i {
                    fold_level(old(self).fed(i as int), granularity).rest
                } else if level == i + 1 {
                    before.live(level) + promoted
                } else {
                    before.live(level)
                }) by {
                    assert(folded._live_data@[level] == before._live_data@.update(
                        i as int,
                        folded._live_data@[i as int],
                    )[level]);
                    assert(appended._live_data@[level] == folded._live_data@.update(
                        i + 1,
                        appended._live_data@[i + 1],
                    )[level]);
                }
                assert forall|level: int| 0 <= level < 4 implies #[trigger] self.historic(level) == (if level
                    == i && children.len() > 0 {
                    children
                } else {
                    before.historic(level)
                }) by {
                    if children.len() > 0 {
                        assert(self._historic_data@[level] == appended._historic_data@.update(
                            i as int,
                            self._historic_data@[i as int],
                        )[level]);
                    }
                }
                assert(self.historic(i as int) == old(self).shown(i as int));
            }
            i += 1;
        }
        proof {
            assert(spec_granularity_at(0) == GRANULARITY::SECOND);
            assert(spec_granularity_at(1) == GRANULARITY::MINUTE);
            assert(spec_granularity_at(2) == GRANULARITY::HOUR);
            assert forall|level: int| 0 <= level < 4 implies #[trigger] self@.live[level] == compressed(
                old(self)@,
            ).live[level] by {
                assert(self@.live[level] == self.live(level));
            }
            assert forall|level: int| 0 <= level < 4 implies #[trigger] self@.historic[level]
                == compressed(old(self)@).historic[level] by {
                assert(self@.historic[level] == self.historic(level));
                assert(old(self)@.historic[level] == old(self).historic(level));
            }
            assert(self@.live =~= compressed(old(self)@).live);
            assert(self@.historic =~= compressed(old(self)@).historic);
        }
    }
}

/// The second bucket that a trade falls in.
pub open spec fn second_of(trade: Transaction) -> u64 {
    MTime::spec_which_second(trade.timestamp)
}

/// How many trades at the head fall in the given second.
pub open spec fn same_second_prefix(trades: Seq<Transaction>, second: u64) -> nat
    decreases trades.len(),
{
    if trades.len() == 0 || second_of(trades.first()) != second {
        0
    } else {
        1 + same_second_prefix(trades.drop_first(), second)
    }
}

/// The sum of the volumes of some trades.
pub open spec fn traded_volume(trades: Seq<Transaction>) -> int
    decreases trades.len(),
{
    if trades.len() == 0 {
        0
    } else {
        traded_volume(trades.drop_last()) + trades.last().volume
    }
}

/// The highest price of some trades, and the lowest price where there are
/// none.
pub open spec fn top_price(trades: Seq<Transaction>) -> Price
    decreases trades.len(),
{
    if trades.len() == 0 {
        Price { key: LOWEST_KEY }
    } else {
        top_price(trades.drop_last()).spec_max(trades.last().price)
    }
}

/// The lowest price of some trades, and the highest price where there are
/// none.
pub open spec fn bottom_price(trades: Seq<Transaction>) -> Price
    decreases trades.len(),
{
    if trades.len() == 0 {
        Price { key: HIGHEST_KEY }
    } else {
        bottom_price(trades.drop_last()).spec_min(trades.last().price)
    }
}

/// The bar of the trades of one second: their volumes added up, the
/// extremes of their prices, the price of the first as the open and of the
/// last as the close.
pub open spec fn second_bar(trades: Seq<Transaction>) -> ObStat
    recommends
        trades.len() > 0,
{
    ObStat {
        tick: second_of(trades.first()),
        granularity: GRANULARITY::SECOND,
        volume: capped(traded_volume(trades)) as u64,
        high: top_price(trades),
        low: bottom_price(trades),
        open: trades.first().price,
        close: trades.last().price,
    }
}

/// One bar for each run of consecutive trades that fall in one second, in
/// the order of the trades.
pub open spec fn second_bars(trades: Seq<Transaction>) -> Seq<ObStat>
    decreases trades.len(),
    via second_bars_decreases
{
    if trades.len() == 0 {
        Seq::empty()
    } else {
        let n = 1 + same_second_prefix(trades.drop_first(), second_of(trades.first()));
        seq![second_bar(trades.take(n as int))] + second_bars(trades.skip(n as int))
    }
}

#[via_fn]
proof fn second_bars_decreases(trades: Seq<Transaction>) {
    if trades.len() > 0 {
        lemma_prefix_end(trades.drop_first(), second_of(trades.first()));
    }
}

/// A history after some trades were ingested: their bars follow the live
/// seconds.
pub open spec fn ingested(v: Levels, trades: Seq<Transaction>) -> Levels {
    Levels { live: v.live.update(0, v.live[0] + second_bars(trades)), historic: v.historic }
}

/// The trades of all groups, one group after the other.
pub open spec fn joined(groups: Seq<(u64, Vec<Transaction>)>) -> Seq<Transaction>
    decreases groups.len(),
{
    if groups.len() == 0 {
        Seq::empty()
    } else {
        groups.first().1@ + joined(groups.drop_first())
    }
}

/// Whether the groups split the trades into their runs by second: put
/// together they give the trades, no group is empty, the trades of a group
/// fall in the second it is keyed by, and neighbouring groups have
/// different keys.
pub open spec fn is_run_split(trades: Seq<Transaction>, groups: Seq<(u64, Vec<Transaction>)>) -> bool {
    &&& joined(groups) == trades
    &&& forall|i: int| 0 <= i < groups.len() ==> (#[trigger] groups[i]).1@.len() > 0
    &&& forall|i: int, j: int|
        0 <= i < groups.len() && 0 <= j < groups[i].1@.len() ==> second_of(
            #[trigger] groups[i].1@[j],
        ) == groups[i].0
    &&& forall|i: int| 0 <= i < groups.len() - 1 ==> (#[trigger] groups[i]).0 != groups[i + 1].0
}

/// The runs of consecutive trades with one second bucket, each with its
/// bucket, from `Itertools::chunk_by` keyed by `MTime::which_second` of the
/// timestamp. The crate documents that consecutive elements that map to
/// the same key are assigned to the same group, and that the groups come in
/// the order of the elements; each group is copied out into a vector.
#[verifier::external_body]
fn chunk_by_second(trades: &Vec<Transaction>) -> (groups: Vec<(u64, Vec<Transaction>)>)
    ensures
        is_run_split(trades@, groups@),
{
    let chunks = trades.iter().chunk_by(|t| MTime::which_second(t.timestamp));
    chunks.into_iter().map(|(second, run)| (second, run.copied().collect())).collect()
}

/// The length of the run at the head is the position before which every
/// trade falls in the second and at which the trade does not.
pub proof fn lemma_prefix_exact(trades: Seq<Transaction>, second: u64, p: int)
    requires
        0 <= p <= trades.len(),
        forall|i: int| 0 <= i < p ==> second_of(#[trigger] trades[i]) == second,
        p < trades.len() ==> second_of(trades[p]) != second,
    ensures
        same_second_prefix(trades, second) == p,
    decreases p,
{
    if p > 0 {
        let rest = trades.drop_first();
        assert forall|i: int| 0 <= i < p - 1 implies second_of(#[trigger] rest[i]) == second by {
            assert(rest[i] == trades[i + 1]);
        }
        if p - 1 < rest.len() {
            assert(rest[p - 1] == trades[p]);
        }
        lemma_prefix_exact(rest, second, p - 1);
    }
}

/// Groups that split the trades into their runs by second give the bars of
/// the trades: one bar for each group, in order.
pub proof fn lemma_run_split(trades: Seq<Transaction>, groups: Seq<(u64, Vec<Transaction>)>)
    requires
        is_run_split(trades, groups),
    ensures
        second_bars(trades).len() == groups.len(),
        forall|i: int|
            0 <= i < groups.len() ==> #[trigger] second_bars(trades)[i] == second_bar(groups[i].1@),
    decreases groups.len(),
{
    if groups.len() > 0 {
        let run = groups.first().1@;
        let second = groups.first().0;
        let rest = groups.drop_first();
        let tail = joined(rest);
        assert(groups[0].1@.len() > 0);
        assert(trades == run + tail);
        assert(trades[0] == run[0]);
        assert(second_of(groups[0].1@[0]) == groups[0].0);
        assert forall|i: int| 0 <= i < rest.len() implies (#[trigger] rest[i]).1@.len() > 0 by {
            assert(rest[i] == groups[i + 1]);
        }
        assert forall|i: int, j: int|
            0 <= i < rest.len() && 0 <= j < rest[i].1@.len() implies second_of(
            #[trigger] rest[i].1@[j],
        ) == rest[i].0 by {
            assert(rest[i] == groups[i + 1]);
            assert(second_of(groups[i + 1].1@[j]) == groups[i + 1].0);
        }
        assert forall|i: int| 0 <= i < rest.len() - 1 implies (#[trigger] rest[i]).0 != rest[i
            + 1].0 by {
            assert(rest[i] == groups[i + 1]);
            assert(rest[i + 1] == groups[i + 2]);
            assert(groups[i + 1].0 != groups[i + 2].0);
        }
        assert(is_run_split(tail, rest));
        lemma_run_split(tail, rest);
        let behind = trades.drop_first();
        assert forall|i: int| 0 <= i < run.len() - 1 implies second_of(#[trigger] behind[i])
            == second by {
            assert(behind[i] == run[i + 1]);
            assert(second_of(groups[0].1@[i + 1]) == groups[0].0);
        }
        if run.len() - 1 < behind.len() {
            assert(rest.len() > 0);
            assert(behind[run.len() - 1] == tail[0]);
            assert(tail == rest.first().1@ + joined(rest.drop_first()));
            assert(rest[0].1@.len() > 0);
            assert(tail[0] == rest[0].1@[0]);
            assert(second_of(rest[0].1@[0]) == rest[0].0);
            assert(rest[0] == groups[1]);
            assert(groups[0].0 != groups[1].0);
        }
        lemma_prefix_exact(behind, second, run.len() - 1);
        assert(trades.take(run.len() as int) =~= run);
        assert(trades.skip(run.len() as int) =~= tail);
        assert(second_bars(trades) == seq![second_bar(run)] + second_bars(tail));
        assert forall|i: int| 0 <= i < groups.len() implies #[trigger] second_bars(trades)[i]
            == second_bar(groups[i].1@) by {
            if i > 0 {
                assert(second_bars(trades)[i] == second_bars(tail)[i - 1]);
                assert(rest[i - 1] == groups[i]);
            }
        }
    } else {
        assert(trades.len() == 0);
    }
}

/// The bar of the trades of one second.
fn summarize(trades: &Vec<Transaction>, second: u64) -> (bar: ObStat)
    requires
        trades@.len() > 0,
        second == second_of(trades@[0]),
    ensures
        bar == second_bar(trades@),
{
    let n = trades.len();
    let mut high = Price::lowest();
    let mut low = Price::highest();
    let mut volume: u64 = 0;
    let mut i: usize = 0;
    while i < n
        invariant
            n == trades.len(),
            0 <= i <= n,
            high == top_price(trades@.take(i as int)),
            low == bottom_price(trades@.take(i as int)),
            volume == capped(traded_volume(trades@.take(i as int))),
            traded_volume(trades@.take(i as int)) >= 0,
        decreases n - i,
    {
        let trade = trades[i];
        proof {
            assert(trades@.take(i + 1).drop_last() =~= trades@.take(i as int));
            assert(trades@.take(i + 1).last() == trade);
        }
        high = high.max(trade.price);
        low = low.min(trade.price);
        volume = if volume > u64::MAX - trade.volume {
            u64::MAX
        } else {
            volume + trade.volume
        };
        i += 1;
    }
    proof {
        assert(trades@.take(n as int) =~= trades@);
    }
    ObStat {
        tick: second,
        granularity: GRANULARITY::SECOND,
        volume,
        high,
        low,
        open: trades[0].price,
        close: trades[n - 1].price,
    }
}

impl HistoryBuffer {
    /// Appends to the live seconds one bar for each run of consecutive
    /// trades that fall in one second: for trades in the order of their
    /// time, one bar for each second with a trade, in increasing order.
    /// Nothing else changes.
    pub fn process_transactions(&mut self, measurements: &Vec<Transaction>)
        requires
            old(self).wf(),
        ensures
            final(self).wf(),
            final(self)@ == ingested(old(self)@, measurements@),
            final(self).live(0) == old(self).live(0) + second_bars(measurements@),
            forall|level: int| 1 <= level < 4 ==> #[trigger] final(self).live(level) == old(self).live(level),
            final(self)._historic_data == old(self)._historic_data,
    {
        let groups = chunk_by_second(measurements);
        let n = groups.len();
        let ghost bars = second_bars(measurements@);
        proof {
            lemma_run_split(measurements@, groups@);
            assert(bars.take(0) =~= Seq::<ObStat>::empty());
            assert(self.live(0) + bars.take(0) =~= self.live(0));
        }
        let mut i: usize = 0;
        while i < n
            invariant
                n == groups.len(),
                0 <= i <= n,
                self.wf(),
                is_run_split(measurements@, groups@),
                bars == second_bars(measurements@),
                bars.len() == n,
                forall|k: int| 0 <= k < n ==> #[trigger] bars[k] == second_bar(groups@[k].1@),
                self.live(0) == old(self).live(0) + bars.take(i as int),
                forall|level: int| 1 <= level < 4 ==> #[trigger] self.live(level) == old(self).live(level),
                self._historic_data == old(self)._historic_data,
            decreases n - i,
        {
            let ghost before = *self;
            proof {
                assert(groups@[i as int].1@.len() > 0);
                assert(second_of(groups@[i as int].1@[0]) == groups@[i as int].0);
            }
            let bar = summarize(&groups[i].1, groups[i].0);
            self._live_data[0].push(bar);
            proof {
                assert(bar == bars[i as int]);
                assert(bars.take(i + 1) =~= bars.take(i as int).push(bar));
                assert(self.live(0) =~= old(self).live(0) + bars.take(i + 1));
                assert forall|level: int| 1 <= level < 4 implies #[trigger] self.live(level)
                    == old(self).live(level) by {
                    assert(self._live_data@[level] == before._live_data@.update(
                        0,
                        self._live_data@[0],
                    )[level]);
                    assert(before.live(level) == old(self).live(level));
                }
            }
            i += 1;
        }
        proof {
            assert(bars.take(n as int) =~= bars);
            assert(self@.live =~= ingested(old(self)@, measurements@).live) by {
                assert forall|level: int| 0 <= level < 4 implies self@.live[level] == ingested(
                    old(self)@,
                    measurements@,
                ).live[level] by {
                    assert(self@.live[level] == self.live(level));
                    assert(old(self)@.live[level] == old(self).live(level));
                }
            }
        }
    }
}

/// `first_beyond` gives a position in the bars, and the bar there, if any,
/// is beyond the edge.
pub proof fn lemma_first_beyond_bounds(bars: Seq<ObStat>, edge: int)
    ensures
        0 <= first_beyond(bars, edge) <= bars.len(),
        first_beyond(bars, edge) < bars.len() ==> bars[first_beyond(bars, edge)].tick > edge,
    decreases bars.len(),
{
    if bars.len() > 0 && bars.first().tick <= edge {
        let rest = bars.drop_first();
        lemma_first_beyond_bounds(rest, edge);
        if first_beyond(rest, edge) < rest.len() {
            assert(rest[first_beyond(rest, edge)] == bars[first_beyond(rest, edge) + 1]);
        }
    }
}

/// The volume of bars put one after the other is the sum of their volumes,
/// and no volume is negative.
pub proof fn lemma_total_volume_append(a: Seq<ObStat>, b: Seq<ObStat>)
    ensures
        total_volume(a + b) == total_volume(a) + total_volume(b),
        total_volume(a) >= 0,
        total_volume(b) >= 0,
    decreases a.len() + b.len(),
{
    if b.len() == 0 {
        assert(a + b =~= a);
        if a.len() > 0 {
            lemma_total_volume_append(a.drop_last(), b);
        }
    } else {
        assert((a + b).drop_last() =~= a + b.drop_last());
        lemma_total_volume_append(a, b.drop_last());
    }
}

/// The volume of a parent is the sum of the volumes of the children folded
/// into it, as long as that sum fits in 64 bits.
pub proof fn lemma_parent_volume(children: Seq<ObStat>, granularity: GRANULARITY)
    requires
        total_volume(children) <= u64::MAX,
    ensures
        parent_of(children, granularity).volume == total_volume(children),
{
    lemma_total_volume_append(children, Seq::empty());
}

/// Folding conserves volume, whatever buckets are missing: the parents and
/// the bars that stay live carry together the volume of the bars that were
/// there, as long as that volume fits in 64 bits.
pub proof fn lemma_fold_conserves_volume(
    bars: Seq<ObStat>,
    edge: int,
    last_tick: int,
    granularity: GRANULARITY,
)
    requires
        total_volume(bars) <= u64::MAX,
    ensures
        total_volume(fold_runs(bars, edge, last_tick, granularity).parents) + total_volume(
            fold_runs(bars, edge, last_tick, granularity).rest,
        ) == total_volume(bars),
    decreases
        (if last_tick > edge {
            last_tick - edge
        } else {
            0
        }),
{
    let ratio = spec_granularity_max_measurements(granularity);
    if bars.len() == 0 || last_tick <= edge || ratio <= 0 {
    } else {
        let n = first_beyond(bars, edge);
        lemma_first_beyond_bounds(bars, edge);
        let run = bars.take(n);
        let behind = bars.skip(n);
        let tail = fold_runs(behind, edge + ratio, last_tick, granularity);
        assert(bars =~= run + behind);
        lemma_total_volume_append(run, behind);
        lemma_fold_conserves_volume(behind, edge + ratio, last_tick, granularity);
        if n > 0 {
            let parent = parent_of(run, granularity);
            let one = seq![parent];
            lemma_total_volume_append(one, tail.parents);
            assert(one.len() == 1 && one.last() == parent);
            assert(one.drop_last() =~= Seq::<ObStat>::empty());
            assert(total_volume(one.drop_last()) == 0);
            assert(total_volume(one) == parent.volume);
        }
    }
}

/// What folding leaves live cannot be folded: no tick of it lies beyond the
/// end of the window of its first bar.
pub proof fn lemma_fold_runs_settles(
    bars: Seq<ObStat>,
    window: int,
    last_tick: int,
    granularity: GRANULARITY,
)
    requires
        spec_granularity_max_measurements(granularity) > 0,
        bars.len() > 0 ==> bars.last().tick == last_tick && bars.first().tick >= window
            * spec_granularity_max_measurements(granularity),
    ensures
        ({
            let ratio = spec_granularity_max_measurements(granularity);
            let rest = fold_runs(bars, window * ratio + ratio - 1, last_tick, granularity).rest;
            rest.len() > 0 ==> rest.last().tick == last_tick && last_tick <= window_end(
                rest.first().tick as int,
                ratio,
            )
        }),
    decreases
        (if last_tick > window * spec_granularity_max_measurements(granularity)
            + spec_granularity_max_measurements(granularity) - 1 {
            last_tick - (window * spec_granularity_max_measurements(granularity)
                + spec_granularity_max_measurements(granularity) - 1)
        } else {
            0
        }),
{
    let ratio = spec_granularity_max_measurements(granularity);
    let edge = window * ratio + ratio - 1;
    if bars.len() == 0 {
    } else if last_tick <= edge {
        lemma_window_index(bars.first().tick as int, ratio, window);
    } else {
        let n = first_beyond(bars, edge);
        lemma_first_beyond_bounds(bars, edge);
        let behind = bars.skip(n);
        if behind.len() > 0 {
            assert(behind.last() == bars.last());
            assert(behind.first() == bars[n]);
        }
        assert((window + 1) * ratio + ratio - 1 == edge + ratio) by (nonlinear_arith)
            requires
                edge == window * ratio + ratio - 1,
        ;
        assert((window + 1) * ratio == edge + 1) by (nonlinear_arith)
            requires
                edge == window * ratio + ratio - 1,
        ;
        lemma_fold_runs_settles(behind, window + 1, last_tick, granularity);
    }
}

/// The ratios of the resolutions that fold are positive.
pub proof fn lemma_ratio_positive(granularity: GRANULARITY)
    requires
        folds(granularity),
    ensures
        spec_granularity_max_measurements(granularity) > 0,
{
    assert(16_666_666int / 277_777int == 60);
    assert(1_000_000_000int / 16_666_666int == 60);
    assert(24_000_000_000int / 1_000_000_000int == 24);
}

/// Folding what an earlier folding left live changes nothing: no parent is
/// made and every bar stays.
pub proof fn lemma_fold_level_idempotent(bars: Seq<ObStat>, granularity: GRANULARITY)
    requires
        folds(granularity),
    ensures
        fold_level(fold_level(bars, granularity).rest, granularity) == (Folded {
            parents: Seq::empty(),
            rest: fold_level(bars, granularity).rest,
            last_run: Seq::empty(),
        }),
{
    let ratio = spec_granularity_max_measurements(granularity);
    lemma_ratio_positive(granularity);
    if bars.len() > 0 {
        let first = bars.first().tick as int;
        lemma_window_end(first, ratio);
        lemma_fold_runs_settles(bars, first / ratio, bars.last().tick as int, granularity);
    }
}

/// Whether the bars are in the order of their buckets.
pub open spec fn ascending(bars: Seq<ObStat>) -> bool {
    forall|i: int, j: int|
        0 <= i < j < bars.len() ==> (#[trigger] bars[i]).tick <= (#[trigger] bars[j]).tick
}

/// Whether the bars are in the order of their buckets and no two share a
/// bucket.
pub open spec fn strictly_ascending(bars: Seq<ObStat>) -> bool {
    forall|i: int, j: int|
        0 <= i < j < bars.len() ==> (#[trigger] bars[i]).tick < (#[trigger] bars[j]).tick
}

/// Folding bars that are in the order of their buckets, from the window
/// with the index `window` on: each parent gets the bucket of its window,
/// so the parents come in the order of their buckets and no two share one;
/// what stays live is the tail of the bars, as it was.
pub proof fn lemma_fold_runs_ascending(
    bars: Seq<ObStat>,
    window: int,
    last_tick: int,
    granularity: GRANULARITY,
)
    requires
        spec_granularity_max_measurements(granularity) > 0,
        ascending(bars),
        bars.len() > 0 ==> bars.first().tick >= window * spec_granularity_max_measurements(
            granularity,
        ),
    ensures
        ({
            let ratio = spec_granularity_max_measurements(granularity);
            let folded = fold_runs(bars, window * ratio + ratio - 1, last_tick, granularity);
            &&& strictly_ascending(folded.parents)
            &&& forall|i: int|
                0 <= i < folded.parents.len() ==> (#[trigger] folded.parents[i]).tick >= window
            &&& folded.rest.len() <= bars.len()
            &&& folded.rest == bars.skip(bars.len() - folded.rest.len())
        }),
    decreases
        (if last_tick > window * spec_granularity_max_measurements(granularity)
            + spec_granularity_max_measurements(granularity) - 1 {
            last_tick - (window * spec_granularity_max_measurements(granularity)
                + spec_granularity_max_measurements(granularity) - 1)
        } else {
            0
        }),
{
    let ratio = spec_granularity_max_measurements(granularity);
    let edge = window * ratio + ratio - 1;
    let folded = fold_runs(bars, edge, last_tick, granularity);
    if bars.len() == 0 || last_tick <= edge {
        assert(bars.skip(0) =~= bars);
    } else {
        let n = first_beyond(bars, edge);
        lemma_first_beyond_bounds(bars, edge);
        let behind = bars.skip(n);
        assert((window + 1) * ratio + ratio - 1 == edge + ratio) by (nonlinear_arith)
            requires
                edge == window * ratio + ratio - 1,
        ;
        assert((window + 1) * ratio == edge + 1) by (nonlinear_arith)
            requires
                edge == window * ratio + ratio - 1,
        ;
        assert forall|i: int, j: int| 0 <= i < j < behind.len() implies (#[trigger] behind[i]).tick
            <= (#[trigger] behind[j]).tick by {
            assert(behind[i] == bars[i + n]);
            assert(behind[j] == bars[j + n]);
        }
        if behind.len() > 0 {
            assert(behind.first() == bars[n]);
        }
        lemma_fold_runs_ascending(behind, window + 1, last_tick, granularity);
        let tail = fold_runs(behind, edge + ratio, last_tick, granularity);
        assert(tail.rest == behind.skip(behind.len() - tail.rest.len()));
        assert(behind.skip(behind.len() - tail.rest.len()) =~= bars.skip(
            bars.len() - tail.rest.len(),
        ));
        if n > 0 {
            let run = bars.take(n);
            let parent = parent_of(run, granularity);
            assert(run.first() == bars[0]);
            assert(bars[0].tick <= edge) by {
                if bars[0].tick > edge {
                    assert(first_beyond(bars, edge) == 0);
                }
            }
            lemma_window_index(bars[0].tick as int, ratio, window);
            assert(parent.tick == window);
            assert(folded.parents == seq![parent] + tail.parents);
            assert forall|i: int, j: int| 0 <= i < j < folded.parents.len() implies (
            #[trigger] folded.parents[i]).tick < (#[trigger] folded.parents[j]).tick by {
                assert(folded.parents[j] == tail.parents[j - 1]);
                if i > 0 {
                    assert(folded.parents[i] == tail.parents[i - 1]);
                }
            }
            assert forall|i: int| 0 <= i < folded.parents.len() implies (
            #[trigger] folded.parents[i]).tick >= window by {
                if i > 0 {
                    assert(folded.parents[i] == tail.parents[i - 1]);
                }
            }
        } else {
            assert(bars.skip(0) =~= bars);
        }
    }
}

/// Folding the bars of a level that are in the order of their buckets
/// gives parents in the order of their buckets, no two in one bucket and
/// none in a bucket before that of the first bar, and leaves the tail of
/// the bars live, as it was.
pub proof fn lemma_fold_level_ascending(bars: Seq<ObStat>, granularity: GRANULARITY)
    requires
        folds(granularity),
        ascending(bars),
    ensures
        strictly_ascending(fold_level(bars, granularity).parents),
        forall|i: int|
            0 <= i < fold_level(bars, granularity).parents.len() ==> (#[trigger] fold_level(
                bars,
                granularity,
            ).parents[i]).tick >= bars.first().tick as int / spec_granularity_max_measurements(
                granularity,
            ),
        fold_level(bars, granularity).rest.len() <= bars.len(),
        fold_level(bars, granularity).rest == bars.skip(
            bars.len() - fold_level(bars, granularity).rest.len(),
        ),
{
    let ratio = spec_granularity_max_measurements(granularity);
    lemma_ratio_positive(granularity);
    if bars.len() > 0 {
        let first = bars.first().tick as int;
        lemma_window_end(first, ratio);
        lemma_fold_runs_ascending(bars, first / ratio, bars.last().tick as int, granularity);
    } else {
        assert(bars.skip(0) =~= bars);
    }
}

/// The promotion from one level to the next keeps both in order: where the
/// children are in the order of their buckets with no two in one, and so
/// are the bars of the next level, all of them in buckets before that of
/// the first child's parent, then what stays of the children is their tail,
/// as it was, and the parents follow the bars of the next level in the
/// order of their buckets with no two in one.
pub proof fn lemma_promotion_keeps_order(
    children: Seq<ObStat>,
    elders: Seq<ObStat>,
    granularity: GRANULARITY,
)
    requires
        folds(granularity),
        strictly_ascending(children),
        strictly_ascending(elders),
        children.len() > 0 && elders.len() > 0 ==> elders.last().tick < children.first().tick as int
            / spec_granularity_max_measurements(granularity),
    ensures
        strictly_ascending(fold_level(children, granularity).rest),
        fold_level(children, granularity).rest == children.skip(
            children.len() - fold_level(children, granularity).rest.len(),
        ),
        strictly_ascending(elders + fold_level(children, granularity).parents),
        elders.len() > 0 ==> (elders + fold_level(children, granularity).parents).first()
            == elders.first(),
        elders.len() == 0 && fold_level(children, granularity).parents.len() > 0 ==> fold_level(
            children,
            granularity,
        ).parents.first().tick >= children.first().tick as int / spec_granularity_max_measurements(
            granularity,
        ),
{
    let folded = fold_level(children, granularity);
    lemma_fold_level_ascending(children, granularity);
    let kept = children.len() - folded.rest.len();
    assert forall|i: int, j: int| 0 <= i < j < folded.rest.len() implies (
    #[trigger] folded.rest[i]).tick < (#[trigger] folded.rest[j]).tick by {
        assert(folded.rest[i] == children[i + kept]);
        assert(folded.rest[j] == children[j + kept]);
    }
    let joined = elders + folded.parents;
    assert forall|i: int, j: int| 0 <= i < j < joined.len() implies (#[trigger] joined[i]).tick < (
    #[trigger] joined[j]).tick by {
        if j < elders.len() {
            assert(joined[i] == elders[i] && joined[j] == elders[j]);
        } else if i < elders.len() {
            assert(joined[i] == elders[i]);
            assert(joined[j] == folded.parents[j - elders.len()]);
            assert(children.len() > 0);
            if i < elders.len() - 1 {
                assert(elders[i].tick < elders[elders.len() - 1].tick);
            }
        } else {
            assert(joined[i] == folded.parents[i - elders.len()]);
            assert(joined[j] == folded.parents[j - elders.len()]);
        }
    }
}

/// A compression keeps every level in order: where each level holds its
/// bars in the order of their buckets with no two in one, and the bars of
/// each coarser level lie in buckets before that of the first bar that can
/// be promoted to it, each level holds its bars so afterwards.
pub proof fn lemma_compress_keeps_order(v: Levels)
    requires
        v.live.len() == 4,
        v.historic.len() == 4,
        forall|level: int| 0 <= level < 4 ==> strictly_ascending(#[trigger] v.live[level]),
        forall|level: int|
            0 <= level < 3 && fed_level(v, level).len() > 0 && (#[trigger] v.live[level + 1]).len()
                > 0 ==> v.live[level + 1].last().tick < fed_level(v, level).first().tick as int
                / spec_granularity_max_measurements(spec_granularity_at(level)),
    ensures
        forall|level: int| 0 <= level < 4 ==> strictly_ascending(#[trigger] compressed(v).live[level]),
{
    assert(spec_granularity_at(0) == GRANULARITY::SECOND);
    assert(spec_granularity_at(1) == GRANULARITY::MINUTE);
    assert(spec_granularity_at(2) == GRANULARITY::HOUR);
    assert(strictly_ascending(v.live[0]));
    assert(strictly_ascending(v.live[0int + 1]));
    assert(strictly_ascending(v.live[1int + 1]));
    assert(strictly_ascending(v.live[2int + 1]));
    assert(fed_level(v, 0) == v.live[0]);
    lemma_promotion_keeps_order(fed_level(v, 0), v.live[0int + 1], GRANULARITY::SECOND);
    assert(fed_level(v, 1) == v.live[1] + fold_level(fed_level(v, 0), spec_granularity_at(0)).parents);
    lemma_promotion_keeps_order(fed_level(v, 1), v.live[1int + 1], GRANULARITY::MINUTE);
    assert(fed_level(v, 2) == v.live[2] + fold_level(fed_level(v, 1), spec_granularity_at(1)).parents);
    lemma_promotion_keeps_order(fed_level(v, 2), v.live[2int + 1], GRANULARITY::HOUR);
    assert(fed_level(v, 3) == v.live[3] + fold_level(fed_level(v, 2), spec_granularity_at(2)).parents);
    let after = compressed(v);
    assert forall|level: int| 0 <= level < 4 implies strictly_ascending(#[trigger] after.live[level]) by {
        if level == 0 {
            assert(after.live[0] == fold_level(fed_level(v, 0), GRANULARITY::SECOND).rest);
        } else if level == 1 {
            assert(after.live[1] == fold_level(fed_level(v, 1), GRANULARITY::MINUTE).rest);
        } else if level == 2 {
            assert(after.live[2] == fold_level(fed_level(v, 2), GRANULARITY::HOUR).rest);
        } else {
            assert(after.live[3] == fed_level(v, 3));
        }
    }
}

/// Compressing twice with nothing ingested in between gives what
/// compressing once gives: the same live and the same historic bars at
/// every level.
pub proof fn lemma_compress_idempotent(v: Levels)
    requires
        v.live.len() == 4,
        v.historic.len() == 4,
    ensures
        compressed(compressed(v)) == compressed(v),
{
    let once = compressed(v);
    lemma_fold_level_idempotent(fed_level(v, 0), GRANULARITY::SECOND);
    lemma_fold_level_idempotent(fed_level(v, 1), GRANULARITY::MINUTE);
    lemma_fold_level_idempotent(fed_level(v, 2), GRANULARITY::HOUR);
    assert(fed_level(once, 0) == once.live[0]);
    assert(fed_level(once, 1) =~= once.live[1]) by {
        assert(fed_level(once, 1) == once.live[1] + fold_level(
            fed_level(once, 0),
            spec_granularity_at(0),
        ).parents);
    }
    assert(fed_level(once, 2) =~= once.live[2]) by {
        assert(fed_level(once, 2) == once.live[2] + fold_level(
            fed_level(once, 1),
            spec_granularity_at(1),
        ).parents);
    }
    assert(fed_level(once, 3) =~= once.live[3]) by {
        assert(fed_level(once, 3) == once.live[3] + fold_level(
            fed_level(once, 2),
            spec_granularity_at(2),
        ).parents);
    }
    assert(compressed(once).live =~= once.live);
    assert(compressed(once).historic =~= once.historic);
}

/// Every trade lies between the extremes of the trades it is among.
pub proof fn lemma_price_extremes(trades: Seq<Transaction>, i: int)
    requires
        0 <= i < trades.len(),
    ensures
        bottom_price(trades).key <= trades[i].price.key <= top_price(trades).key,
    decreases trades.len(),
{
    if i < trades.len() - 1 {
        lemma_price_extremes(trades.drop_last(), i);
    }
}

/// A bar made of at least one trade has its high at or above its low.
pub proof fn lemma_second_bar_ordered(trades: Seq<Transaction>)
    requires
        trades.len() > 0,
    ensures
        second_bar(trades).low.key <= second_bar(trades).high.key,
{
    lemma_price_extremes(trades, 0);
}

/// The high of a parent is at or above the high of each child, and its low
/// at or below the low of each child.
pub proof fn lemma_bar_extremes(children: Seq<ObStat>, i: int)
    requires
        0 <= i < children.len(),
    ensures
        low_of(children).key <= children[i].low.key,
        children[i].high.key <= high_of(children).key,
    decreases children.len(),
{
    if i < children.len() - 1 {
        lemma_bar_extremes(children.drop_last(), i);
    }
}

/// A parent folded from children of which one has its high at or above its
/// low has its high at or above its low.
pub proof fn lemma_parent_ordered(children: Seq<ObStat>, granularity: GRANULARITY, i: int)
    requires
        0 <= i < children.len(),
        children[i].low.key <= children[i].high.key,
    ensures
        parent_of(children, granularity).low.key <= parent_of(children, granularity).high.key,
{
    lemma_bar_extremes(children, i);
}

/// The run at the head ends within the trades, every trade of it falls in
/// the second, and the trade behind it, if any, does not.
pub proof fn lemma_prefix_end(trades: Seq<Transaction>, second: u64)
    ensures
        same_second_prefix(trades, second) <= trades.len(),
        forall|i: int|
            0 <= i < same_second_prefix(trades, second) ==> second_of(#[trigger] trades[i])
                == second,
        same_second_prefix(trades, second) < trades.len() ==> second_of(
            trades[same_second_prefix(trades, second) as int],
        ) != second,
    decreases trades.len(),
{
    if trades.len() > 0 && second_of(trades.first()) == second {
        let rest = trades.drop_first();
        lemma_prefix_end(rest, second);
        let p = same_second_prefix(rest, second);
        assert forall|i: int| 0 <= i < p + 1 implies second_of(#[trigger] trades[i]) == second by {
            if i > 0 {
                assert(trades[i] == rest[i - 1]);
            }
        }
        if p < rest.len() {
            assert(rest[p as int] == trades[p as int + 1]);
        }
    }
}

/// Whether the trades are in the order of their time and none was made
/// before market time began.
pub open spec fn chronological(trades: Seq<Transaction>) -> bool {
    &&& forall|i: int| 0 <= i < trades.len() ==> (#[trigger] trades[i]).timestamp >= 0
    &&& forall|i: int, j: int|
        0 <= i < j < trades.len() ==> (#[trigger] trades[i]).timestamp <= (
        #[trigger] trades[j]).timestamp
}

/// Trades in the order of their time give one bar for each second in which
/// there was a trade, in increasing order of the seconds.
pub proof fn lemma_chronological_bars(trades: Seq<Transaction>)
    requires
        chronological(trades),
    ensures
        trades.len() > 0 ==> second_bars(trades).len() > 0 && second_bars(trades)[0].tick
            == second_of(trades[0]),
        forall|i: int, j: int|
            0 <= i < j < second_bars(trades).len() ==> (#[trigger] second_bars(trades)[i]).tick < (
            #[trigger] second_bars(trades)[j]).tick,
    decreases trades.len(),
{
    if trades.len() > 0 {
        let second = second_of(trades.first());
        let behind = trades.drop_first();
        lemma_prefix_end(behind, second);
        let n = 1 + same_second_prefix(behind, second);
        let run = trades.take(n as int);
        let tail = trades.skip(n as int);
        assert(run.first() == trades[0]);
        assert forall|i: int| 0 <= i < tail.len() implies (#[trigger] tail[i]).timestamp >= 0 by {
            assert(tail[i] == trades[i + n]);
        }
        assert forall|i: int, j: int| 0 <= i < j < tail.len() implies (#[trigger] tail[i]).timestamp
            <= (#[trigger] tail[j]).timestamp by {
            assert(tail[i] == trades[i + n]);
            assert(tail[j] == trades[j + n]);
        }
        lemma_chronological_bars(tail);
        let bars = second_bars(trades);
        let later = second_bars(tail);
        assert(bars == seq![second_bar(run)] + later);
        if tail.len() > 0 {
            assert(tail[0] == trades[n as int]);
            assert(behind[n - 1] == trades[n as int]);
            assert(trades[0].timestamp <= trades[n as int].timestamp);
            assert(second_of(trades[0]) <= second_of(tail[0]));
        }
        assert forall|i: int, j: int| 0 <= i < j < bars.len() implies (#[trigger] bars[i]).tick < (
        #[trigger] bars[j]).tick by {
            assert(bars[j] == later[j - 1]);
            if i == 0 {
                assert(bars[0].tick == second);
                if j - 1 > 0 {
                    assert(later[0].tick < later[j - 1].tick);
                }
            } else {
                assert(bars[i] == later[i - 1]);
            }
        }
    }
}

} // verus!
