//! The stopwatch of the backward kernels: what each counter is charged with,
//! which slots each role publishes, and how a grid's counters are read back.

use crate::arith::lemma_split_bounds;
use crate::flash::schedule::{
    law_both_parallel_forms_visit_alike, query_visits, KeyItem, QueryItem, ISSUE_WARP,
};
use vstd::prelude::*;

verus! {

/// Counters one block owns.
pub const COUNTERS: usize = 24;

/// Tile visits the block made.
pub const VISITS: usize = 0;

/// Work items the block ran.
pub const ITEMS: usize = 1;

/// Wait for a streamed stage.
pub const FEED: usize = 2;

/// Wait for the accumulation that frees a stage.
pub const RECYCLE: usize = 3;

/// Issue of copies and products.
pub const ISSUE: usize = 4;

/// Wait for a tile's scores.
pub const SCORED: usize = 5;

/// Wait for the buffer the pass writes.
pub const GRAD: usize = 6;

/// Loads of the saved statistics.
pub const STAT: usize = 7;

/// The register pass.
pub const PASS: usize = 8;

/// The pass warps at the block barrier.
pub const SYNC: usize = 9;

/// The trailing drain, per item.
pub const EPI: usize = 10;

/// First tick to last, per item.
pub const SPAN: usize = 11;

/// The issuing warp at the block barrier.
pub const IDLE: usize = 12;

/// Issue of copies.
pub const TMA: usize = 13;

/// Issue of score products.
pub const SMMA: usize = 14;

/// Issue of gradient products.
pub const GMMA: usize = 15;

/// Tensor-memory reads within the pass.
pub const TREAD: usize = 16;

/// Shared-memory stores within the pass.
pub const SSTORE: usize = 17;

/// Time between items.
pub const GAP: usize = 18;

/// The first score wait of an item.
pub const FILL: usize = 19;

/// The wait that opens the trailing drain.
pub const DRAINWAIT: usize = 20;

/// Tick sums of one warp.
#[derive(Clone, Copy, PartialEq, Eq, Structural, Debug)]
pub struct Sums {
    pub feed: u64,
    pub recycle: u64,
    pub issue: u64,
    pub scored: u64,
    pub grad: u64,
    pub stat: u64,
    pub pass: u64,
    pub sync: u64,
    pub idle: u64,
    pub epi: u64,
    pub visits: u64,
    pub items: u64,
    pub tma: u64,
    pub smma: u64,
    pub gmma: u64,
    pub tread: u64,
    pub sstore: u64,
    pub gap: u64,
    pub fill: u64,
    pub drainwait: u64,
    /// Last tick of the previous item.
    pub ended: u64,
}

/// What an interval of ticks was spent on.
#[derive(Clone, Copy, PartialEq, Eq, Structural, Debug)]
pub enum Phase {
    /// The issuing warp waits for a streamed stage.
    Feed,
    /// The issuing warp waits for the accumulation that frees a stage.
    Recycle,
    /// The issuing warp issues, whatever it issues.
    Issue,
    /// The issuing warp issues copies; part of its issue time.
    Tma,
    /// The issuing warp issues score products; part of its issue time.
    ScoreMultiply,
    /// The issuing warp issues gradient products; part of its issue time.
    GradientMultiply,
    /// The pass warps wait for a tile's scores.
    Scored,
    /// The pass warps wait for an item's first scores; part of the score waits.
    Fill,
    /// The pass warps wait for the buffer they write.
    Gradient,
    /// The saved statistics are loaded.
    Statistic,
    /// The register pass.
    Pass,
    /// The pass warps wait at the block barrier.
    Sync,
    /// The issuing warp waits at the block barrier.
    Idle,
    /// The trailing drain of an item.
    Epilogue,
    /// The wait that opens the trailing drain.
    DrainWait,
    /// Tensor-memory reads within the pass.
    TensorRead,
    /// Shared-memory stores within the pass.
    SharedStore,
    /// The pass warps between two items.
    Gap,
}

/// What a 64-bit counter shows of a count.
pub open spec fn wrapped(count: int) -> int {
    count % 0x1_0000_0000_0000_0000
}

/// Ticks from one reading of the clock to a later one; the clock may wrap once
/// between them.
pub open spec fn ticks_between(from: u64, to: u64) -> u64 {
    to.wrapping_sub(from)
}

/// A counter after the ticks between two readings.
proof fn lemma_spent(before: u64, from: u64, to: u64)
    ensures
        before.wrapping_add(ticks_between(from, to)) == (before + to - from)
            % 0x1_0000_0000_0000_0000,
{
}

impl Sums {
    /// The sums before the first item.
    pub fn zero() -> (sums: Sums)
        ensures
            sums.feed == 0,
            sums.recycle == 0,
            sums.issue == 0,
            sums.scored == 0,
            sums.grad == 0,
            sums.stat == 0,
            sums.pass == 0,
            sums.sync == 0,
            sums.idle == 0,
            sums.epi == 0,
            sums.visits == 0,
            sums.items == 0,
            sums.tma == 0,
            sums.smma == 0,
            sums.gmma == 0,
            sums.tread == 0,
            sums.sstore == 0,
            sums.gap == 0,
            sums.fill == 0,
            sums.drainwait == 0,
            sums.ended == 0,
    {
        Sums {
            feed: 0,
            recycle: 0,
            issue: 0,
            scored: 0,
            grad: 0,
            stat: 0,
            pass: 0,
            sync: 0,
            idle: 0,
            epi: 0,
            visits: 0,
            items: 0,
            tma: 0,
            smma: 0,
            gmma: 0,
            tread: 0,
            sstore: 0,
            gap: 0,
            fill: 0,
            drainwait: 0,
            ended: 0,
        }
    }

    /// The sums after `ticks` more of `phase`.
    pub open spec fn charged(self, phase: Phase, ticks: u64) -> Sums {
        match phase {
            Phase::Feed => Sums { feed: self.feed.wrapping_add(ticks), ..self },
            Phase::Recycle => Sums { recycle: self.recycle.wrapping_add(ticks), ..self },
            Phase::Issue => Sums { issue: self.issue.wrapping_add(ticks), ..self },
            Phase::Tma => Sums { tma: self.tma.wrapping_add(ticks), issue: self.issue.wrapping_add(ticks), ..self },
            Phase::ScoreMultiply => Sums { smma: self.smma.wrapping_add(ticks), issue: self.issue.wrapping_add(ticks), ..self },
            Phase::GradientMultiply => Sums { gmma: self.gmma.wrapping_add(ticks), issue: self.issue.wrapping_add(ticks), ..self },
            Phase::Scored => Sums { scored: self.scored.wrapping_add(ticks), ..self },
            Phase::Fill => Sums { fill: self.fill.wrapping_add(ticks), scored: self.scored.wrapping_add(ticks), ..self },
            Phase::Gradient => Sums { grad: self.grad.wrapping_add(ticks), ..self },
            Phase::Statistic => Sums { stat: self.stat.wrapping_add(ticks), ..self },
            Phase::Pass => Sums { pass: self.pass.wrapping_add(ticks), ..self },
            Phase::Sync => Sums { sync: self.sync.wrapping_add(ticks), ..self },
            Phase::Idle => Sums { idle: self.idle.wrapping_add(ticks), ..self },
            Phase::Epilogue => Sums { epi: self.epi.wrapping_add(ticks), ..self },
            Phase::DrainWait => Sums { drainwait: self.drainwait.wrapping_add(ticks), ..self },
            Phase::TensorRead => Sums { tread: self.tread.wrapping_add(ticks), ..self },
            Phase::SharedStore => Sums { sstore: self.sstore.wrapping_add(ticks), ..self },
            Phase::Gap => Sums { gap: self.gap.wrapping_add(ticks), ..self },
        }
    }

    /// Charges the ticks between two readings of the clock to a phase.
    pub fn charge(&mut self, phase: Phase, from: u64, to: u64)
        ensures
            *final(self) == old(self).charged(phase, ticks_between(from, to)),
            match phase {
                Phase::Feed => {
                    &&& *final(self) == (Sums { feed: final(self).feed, ..*old(self) })
                    &&& final(self).feed == (old(self).feed + to - from) % 0x1_0000_0000_0000_0000
                },
                Phase::Recycle => {
                    &&& *final(self) == (Sums { recycle: final(self).recycle, ..*old(self) })
                    &&& final(self).recycle == (old(self).recycle + to - from) % 0x1_0000_0000_0000_0000
                },
                Phase::Issue => {
                    &&& *final(self) == (Sums { issue: final(self).issue, ..*old(self) })
                    &&& final(self).issue == (old(self).issue + to - from) % 0x1_0000_0000_0000_0000
                },
                Phase::Tma => {
                    &&& *final(self) == (Sums { tma: final(self).tma, issue: final(self).issue, ..*old(self) })
                    &&& final(self).tma == (old(self).tma + to - from) % 0x1_0000_0000_0000_0000
                    &&& final(self).issue == (old(self).issue + to - from) % 0x1_0000_0000_0000_0000
                },
                Phase::ScoreMultiply => {
                    &&& *final(self) == (Sums { smma: final(self).smma, issue: final(self).issue, ..*old(self) })
                    &&& final(self).smma == (old(self).smma + to - from) % 0x1_0000_0000_0000_0000
                    &&& final(self).issue == (old(self).issue + to - from) % 0x1_0000_0000_0000_0000
                },
                Phase::GradientMultiply => {
                    &&& *final(self) == (Sums { gmma: final(self).gmma, issue: final(self).issue, ..*old(self) })
                    &&& final(self).gmma == (old(self).gmma + to - from) % 0x1_0000_0000_0000_0000
                    &&& final(self).issue == (old(self).issue + to - from) % 0x1_0000_0000_0000_0000
                },
                Phase::Scored => {
                    &&& *final(self) == (Sums { scored: final(self).scored, ..*old(self) })
                    &&& final(self).scored == (old(self).scored + to - from) % 0x1_0000_0000_0000_0000
                },
                Phase::Fill => {
                    &&& *final(self) == (Sums { fill: final(self).fill, scored: final(self).scored, ..*old(self) })
                    &&& final(self).fill == (old(self).fill + to - from) % 0x1_0000_0000_0000_0000
                    &&& final(self).scored == (old(self).scored + to - from) % 0x1_0000_0000_0000_0000
                },
                Phase::Gradient => {
                    &&& *final(self) == (Sums { grad: final(self).grad, ..*old(self) })
                    &&& final(self).grad == (old(self).grad + to - from) % 0x1_0000_0000_0000_0000
                },
                Phase::Statistic => {
                    &&& *final(self) == (Sums { stat: final(self).stat, ..*old(self) })
                    &&& final(self).stat == (old(self).stat + to - from) % 0x1_0000_0000_0000_0000
                },
                Phase::Pass => {
                    &&& *final(self) == (Sums { pass: final(self).pass, ..*old(self) })
                    &&& final(self).pass == (old(self).pass + to - from) % 0x1_0000_0000_0000_0000
                },
                Phase::Sync => {
                    &&& *final(self) == (Sums { sync: final(self).sync, ..*old(self) })
                    &&& final(self).sync == (old(self).sync + to - from) % 0x1_0000_0000_0000_0000
                },
                Phase::Idle => {
                    &&& *final(self) == (Sums { idle: final(self).idle, ..*old(self) })
                    &&& final(self).idle == (old(self).idle + to - from) % 0x1_0000_0000_0000_0000
                },
                Phase::Epilogue => {
                    &&& *final(self) == (Sums { epi: final(self).epi, ..*old(self) })
                    &&& final(self).epi == (old(self).epi + to - from) % 0x1_0000_0000_0000_0000
                },
                Phase::DrainWait => {
                    &&& *final(self) == (Sums { drainwait: final(self).drainwait, ..*old(self) })
                    &&& final(self).drainwait == (old(self).drainwait + to - from) % 0x1_0000_0000_0000_0000
                },
                Phase::TensorRead => {
                    &&& *final(self) == (Sums { tread: final(self).tread, ..*old(self) })
                    &&& final(self).tread == (old(self).tread + to - from) % 0x1_0000_0000_0000_0000
                },
                Phase::SharedStore => {
                    &&& *final(self) == (Sums { sstore: final(self).sstore, ..*old(self) })
                    &&& final(self).sstore == (old(self).sstore + to - from) % 0x1_0000_0000_0000_0000
                },
                Phase::Gap => {
                    &&& *final(self) == (Sums { gap: final(self).gap, ..*old(self) })
                    &&& final(self).gap == (old(self).gap + to - from) % 0x1_0000_0000_0000_0000
                },
            },
    {
        let ticks: u64 = to.wrapping_sub(from);
        proof {
            lemma_spent(self.feed, from, to);
            lemma_spent(self.recycle, from, to);
            lemma_spent(self.issue, from, to);
            lemma_spent(self.scored, from, to);
            lemma_spent(self.grad, from, to);
            lemma_spent(self.stat, from, to);
            lemma_spent(self.pass, from, to);
            lemma_spent(self.sync, from, to);
            lemma_spent(self.idle, from, to);
            lemma_spent(self.epi, from, to);
            lemma_spent(self.tma, from, to);
            lemma_spent(self.smma, from, to);
            lemma_spent(self.gmma, from, to);
            lemma_spent(self.tread, from, to);
            lemma_spent(self.sstore, from, to);
            lemma_spent(self.gap, from, to);
            lemma_spent(self.fill, from, to);
            lemma_spent(self.drainwait, from, to);
        }
        match phase {
            Phase::Feed => {
                self.feed = self.feed.wrapping_add(ticks);
            },
            Phase::Recycle => {
                self.recycle = self.recycle.wrapping_add(ticks);
            },
            Phase::Issue => {
                self.issue = self.issue.wrapping_add(ticks);
            },
            Phase::Tma => {
                self.tma = self.tma.wrapping_add(ticks);
                self.issue = self.issue.wrapping_add(ticks);
            },
            Phase::ScoreMultiply => {
                self.smma = self.smma.wrapping_add(ticks);
                self.issue = self.issue.wrapping_add(ticks);
            },
            Phase::GradientMultiply => {
                self.gmma = self.gmma.wrapping_add(ticks);
                self.issue = self.issue.wrapping_add(ticks);
            },
            Phase::Scored => {
                self.scored = self.scored.wrapping_add(ticks);
            },
            Phase::Fill => {
                self.fill = self.fill.wrapping_add(ticks);
                self.scored = self.scored.wrapping_add(ticks);
            },
            Phase::Gradient => {
                self.grad = self.grad.wrapping_add(ticks);
            },
            Phase::Statistic => {
                self.stat = self.stat.wrapping_add(ticks);
            },
            Phase::Pass => {
                self.pass = self.pass.wrapping_add(ticks);
            },
            Phase::Sync => {
                self.sync = self.sync.wrapping_add(ticks);
            },
            Phase::Idle => {
                self.idle = self.idle.wrapping_add(ticks);
            },
            Phase::Epilogue => {
                self.epi = self.epi.wrapping_add(ticks);
            },
            Phase::DrainWait => {
                self.drainwait = self.drainwait.wrapping_add(ticks);
            },
            Phase::TensorRead => {
                self.tread = self.tread.wrapping_add(ticks);
            },
            Phase::SharedStore => {
                self.sstore = self.sstore.wrapping_add(ticks);
            },
            Phase::Gap => {
                self.gap = self.gap.wrapping_add(ticks);
            },
        }
    }

    /// Counts one visit of a tile.
    pub fn visit(&mut self)
        ensures
            *final(self) == old(self).visited(),
            *final(self) == (Sums { visits: final(self).visits, ..*old(self) }),
            final(self).visits == (old(self).visits + 1) % 0x1_0000_0000_0000_0000,
    {
        self.visits = self.visits.wrapping_add(1);
    }

    /// Opens an item at tick `now`: the time since the last item's end is the
    /// gap between them, and the first item has none.
    pub fn open_item(&mut self, now: u64)
        ensures
            *final(self) == old(self).opened(now),
            *final(self) == (Sums { gap: final(self).gap, ..*old(self) }),
            old(self).items == 0 ==> final(self).gap == old(self).gap,
            old(self).items > 0 ==> final(self).gap == (old(self).gap + now - old(self).ended)
                % 0x1_0000_0000_0000_0000,
    {
        if self.items > 0 {
            let ended: u64 = self.ended;
            self.charge(Phase::Gap, ended, now);
        }
    }

    /// Closes an item that ended at tick `now`.
    pub fn close_item(&mut self, now: u64)
        ensures
            *final(self) == old(self).closed(now),
            *final(self) == (Sums { items: final(self).items, ended: now, ..*old(self) }),
            final(self).items == (old(self).items + 1) % 0x1_0000_0000_0000_0000,
    {
        self.items = self.items.wrapping_add(1);
        self.ended = now;
    }

    /// The sums after one more tile.
    pub open spec fn visited(self) -> Sums {
        Sums { visits: self.visits.wrapping_add(1), ..self }
    }

    /// The sums when an item opens at tick `now`.
    pub open spec fn opened(self, now: u64) -> Sums {
        if self.items > 0 {
            self.charged(Phase::Gap, ticks_between(self.ended, now))
        } else {
            self
        }
    }

    /// The sums when an item has ended at tick `now`.
    pub open spec fn closed(self, now: u64) -> Sums {
        Sums { items: self.items.wrapping_add(1), ended: now, ..self }
    }

    /// The sums after a stretch of charges.
    pub open spec fn charged_all(self, charges: Seq<(Phase, u64)>) -> Sums
        decreases charges.len(),
    {
        if charges.len() == 0 {
            self
        } else {
            self.charged_all(charges.drop_last()).charged(charges.last().0, charges.last().1)
        }
    }

    /// The sums after some tiles, each a stretch of charges and a visit.
    pub open spec fn ran_tiles(self, tiles: Seq<Seq<(Phase, u64)>>) -> Sums
        decreases tiles.len(),
    {
        if tiles.len() == 0 {
            self
        } else {
            self.ran_tiles(tiles.drop_last()).charged_all(tiles.last()).visited()
        }
    }

    /// The sums after an item: it may open, is charged before, during and after
    /// its tiles, and closes at tick `ended`.
    pub open spec fn ran_item(
        self,
        opening: Option<u64>,
        before: Seq<(Phase, u64)>,
        tiles: Seq<Seq<(Phase, u64)>>,
        after: Seq<(Phase, u64)>,
        ended: u64,
    ) -> Sums {
        let open = match opening {
            Some(now) => self.opened(now),
            None => self,
        };
        open.charged_all(before).ran_tiles(tiles).charged_all(after).closed(ended)
    }

    /// Law: an item counts once and its tiles once each, whatever is charged
    /// along the way: `key_tiles` of them for an item of a query block, `steps`
    /// for one of a key block. Both counters run over at 64 bits.
    pub proof fn law_an_item_and_its_tiles_are_counted(
        self,
        opening: Option<u64>,
        before: Seq<(Phase, u64)>,
        tiles: Seq<Seq<(Phase, u64)>>,
        after: Seq<(Phase, u64)>,
        ended: u64,
        queries: QueryItem,
        keys: KeyItem,
    )
        ensures
            ({
                let ran = self.ran_item(opening, before, tiles, after, ended);
                &&& ran.items == wrapped(self.items + 1)
                &&& ran.visits == wrapped(self.visits + tiles.len())
                &&& queries.consistent() && tiles.len() == queries.key_tiles ==> ran.visits
                    == wrapped(self.visits + 2 * queries.query_block + 2)
                &&& tiles.len() == keys.steps ==> ran.visits == wrapped(self.visits + keys.steps)
                &&& ran.ended == ended
            }),
    {
        let open = match opening {
            Some(now) => self.opened(now),
            None => self,
        };
        open.lemma_charges_count_nothing(before);
        let started = open.charged_all(before);
        started.lemma_tiles_are_counted(tiles);
        started.ran_tiles(tiles).lemma_charges_count_nothing(after);
    }

    proof fn lemma_charges_count_nothing(self, charges: Seq<(Phase, u64)>)
        ensures
            self.charged_all(charges).items == self.items,
            self.charged_all(charges).visits == self.visits,
        decreases charges.len(),
    {
        if charges.len() > 0 {
            self.lemma_charges_count_nothing(charges.drop_last());
        }
    }

    proof fn lemma_tiles_are_counted(self, tiles: Seq<Seq<(Phase, u64)>>)
        ensures
            self.ran_tiles(tiles).items == self.items,
            self.ran_tiles(tiles).visits == wrapped(self.visits + tiles.len()),
        decreases tiles.len(),
    {
        if tiles.len() > 0 {
            self.lemma_tiles_are_counted(tiles.drop_last());
            self.ran_tiles(tiles.drop_last()).lemma_charges_count_nothing(tiles.last());
        }
    }

    /// The three parts of the issue time add up to it, on the counter's own
    /// 64-bit circle.
    pub open spec fn issue_is_split(self) -> bool {
        self.issue == self.tma.wrapping_add(self.smma).wrapping_add(self.gmma)
    }

    /// Law: the split of the issue time stays a partition, whatever is charged,
    /// as long as no issue time is charged without saying what was issued.
    pub proof fn law_issue_split_is_kept(self, phase: Phase, ticks: u64)
        requires
            self.issue_is_split(),
            phase != Phase::Issue,
        ensures
            self.charged(phase, ticks).issue_is_split(),
    {
    }

    /// A divisor of at least one.
    pub open spec fn divisor(count: u64) -> int {
        if count < 1 {
            1
        } else {
            count as int
        }
    }

    /// Slots and values that the pass warps publish: means per visit, and per
    /// item for what runs once an item.
    pub open spec fn pass_slots(self, span: u64) -> Seq<(usize, u64)> {
        let visits = Sums::divisor(self.visits);
        let items = Sums::divisor(self.items);
        seq![
            (VISITS, self.visits),
            (ITEMS, self.items),
            (SCORED, (self.scored as int / visits) as u64),
            (GRAD, (self.grad as int / visits) as u64),
            (STAT, (self.stat as int / visits) as u64),
            (PASS, (self.pass as int / visits) as u64),
            (SYNC, (self.sync as int / visits) as u64),
            (EPI, (self.epi as int / items) as u64),
            (SPAN, (span as int / items) as u64),
            (TREAD, (self.tread as int / visits) as u64),
            (SSTORE, (self.sstore as int / visits) as u64),
            (GAP, (self.gap as int / items) as u64),
            (FILL, (self.fill as int / items) as u64),
            (DRAINWAIT, (self.drainwait as int / items) as u64),
        ]
    }

    /// The three parts of the issue time add up to it.
    pub open spec fn issue_is_partitioned(self) -> bool {
        self.tma + self.smma + self.gmma == self.issue
    }

    /// What is published of the gradient products. Where the issue time is
    /// partitioned it is what the published copies and score products leave of
    /// the published whole, so that rounding loses no tick between them.
    pub open spec fn published_gmma(self) -> int {
        let visits = Sums::divisor(self.visits);
        if self.issue_is_partitioned() {
            self.issue as int / visits - self.tma as int / visits - self.smma as int / visits
        } else {
            self.gmma as int / visits
        }
    }

    /// Slots and values that the issuing warp publishes, means per visit.
    pub open spec fn issue_slots(self) -> Seq<(usize, u64)> {
        let visits = Sums::divisor(self.visits);
        seq![
            (FEED, (self.feed as int / visits) as u64),
            (RECYCLE, (self.recycle as int / visits) as u64),
            (ISSUE, (self.issue as int / visits) as u64),
            (IDLE, (self.idle as int / visits) as u64),
            (TMA, (self.tma as int / visits) as u64),
            (SMMA, (self.smma as int / visits) as u64),
            (GMMA, self.published_gmma() as u64),
        ]
    }

    /// What the pass warps publish of a run of `span` ticks.
    pub fn pass_column(&self, span: u64) -> (column: [(usize, u64); 14])
        ensures
            column@ == self.pass_slots(span),
            ({
                let visits = if self.visits == 0 {
                    1int
                } else {
                    self.visits as int
                };
                let items = if self.items == 0 {
                    1int
                } else {
                    self.items as int
                };
                &&& column@[0].0 == 0 && column@[0].1 == self.visits
                &&& column@[1].0 == 1 && column@[1].1 == self.items
                &&& column@[2].0 == 5 && column@[2].1 == self.scored as int / visits
                &&& column@[3].0 == 6 && column@[3].1 == self.grad as int / visits
                &&& column@[4].0 == 7 && column@[4].1 == self.stat as int / visits
                &&& column@[5].0 == 8 && column@[5].1 == self.pass as int / visits
                &&& column@[6].0 == 9 && column@[6].1 == self.sync as int / visits
                &&& column@[7].0 == 10 && column@[7].1 == self.epi as int / items
                &&& column@[8].0 == 11 && column@[8].1 == span as int / items
                &&& column@[9].0 == 16 && column@[9].1 == self.tread as int / visits
                &&& column@[10].0 == 17 && column@[10].1 == self.sstore as int / visits
                &&& column@[11].0 == 18 && column@[11].1 == self.gap as int / items
                &&& column@[12].0 == 19 && column@[12].1 == self.fill as int / items
                &&& column@[13].0 == 20 && column@[13].1 == self.drainwait as int / items
            }),
            self.tread + self.sstore <= self.pass ==> column@[9].1 + column@[10].1 <= column@[5].1,
            self.drainwait <= self.epi ==> column@[13].1 <= column@[7].1,
    {
        let visits: u64 = if self.visits < 1 {
            1
        } else {
            self.visits
        };
        let items: u64 = if self.items < 1 {
            1
        } else {
            self.items
        };
        let column: [(usize, u64); 14] = [
            (VISITS, self.visits),
            (ITEMS, self.items),
            (SCORED, self.scored / visits),
            (GRAD, self.grad / visits),
            (STAT, self.stat / visits),
            (PASS, self.pass / visits),
            (SYNC, self.sync / visits),
            (EPI, self.epi / items),
            (SPAN, span / items),
            (TREAD, self.tread / visits),
            (SSTORE, self.sstore / visits),
            (GAP, self.gap / items),
            (FILL, self.fill / items),
            (DRAINWAIT, self.drainwait / items),
        ];
        assert(column@ =~= self.pass_slots(span));
        proof {
            if self.tread + self.sstore <= self.pass {
                lemma_parts_round_down(
                    self.tread as int,
                    self.sstore as int,
                    self.pass as int,
                    visits as int,
                );
            }
            if self.drainwait <= self.epi {
                lemma_parts_round_down(self.drainwait as int, 0, self.epi as int, items as int);
            }
        }
        column
    }

    /// What the issuing warp publishes.
    pub fn issue_column(&self) -> (column: [(usize, u64); 7])
        ensures
            column@ == self.issue_slots(),
            ({
                let visits = if self.visits == 0 {
                    1int
                } else {
                    self.visits as int
                };
                &&& column@[0].0 == 2 && column@[0].1 == self.feed as int / visits
                &&& column@[1].0 == 3 && column@[1].1 == self.recycle as int / visits
                &&& column@[2].0 == 4 && column@[2].1 == self.issue as int / visits
                &&& column@[3].0 == 12 && column@[3].1 == self.idle as int / visits
                &&& column@[4].0 == 13 && column@[4].1 == self.tma as int / visits
                &&& column@[5].0 == 14 && column@[5].1 == self.smma as int / visits
                &&& column@[6].0 == 15
                &&& self.tma + self.smma + self.gmma != self.issue ==> column@[6].1
                    == self.gmma as int / visits
                &&& self.tma + self.smma + self.gmma == self.issue ==> column@[6].1
                    == self.issue as int / visits - self.tma as int / visits - self.smma as int
                    / visits
            }),
            self.issue_is_partitioned() ==> column@[4].1 + column@[5].1 + column@[6].1
                == column@[2].1,
    {
        let visits: u64 = if self.visits < 1 {
            1
        } else {
            self.visits
        };
        let issue: u64 = self.issue / visits;
        let tma: u64 = self.tma / visits;
        let smma: u64 = self.smma / visits;
        let fits: bool = self.tma <= self.issue && self.smma <= self.issue - self.tma;
        let partitioned: bool = fits && self.gmma == self.issue - self.tma - self.smma;
        proof {
            if self.tma + self.smma <= self.issue {
                lemma_parts_round_down(
                    self.tma as int,
                    self.smma as int,
                    self.issue as int,
                    visits as int,
                );
            }
        }
        let gmma: u64 = if partitioned {
            issue - tma - smma
        } else {
            self.gmma / visits
        };
        let column: [(usize, u64); 7] = [
            (FEED, self.feed / visits),
            (RECYCLE, self.recycle / visits),
            (ISSUE, issue),
            (IDLE, self.idle / visits),
            (TMA, tma),
            (SMMA, smma),
            (GMMA, gmma),
        ];
        assert(column@ =~= self.issue_slots());
        column
    }

    /// Law: what is published of the issue time is a partition of it, as the sums
    /// are as long as their total has not run over its 64 bits: the three parts
    /// add up to the whole, and the last is its own mean but for the two ticks
    /// that rounding the others down can leave.
    pub proof fn law_published_issue_is_a_partition(self)
        requires
            self.issue_is_split(),
            self.tma + self.smma + self.gmma <= u64::MAX,
        ensures
            self.issue_is_partitioned(),
            self.issue_slots()[4].1 + self.issue_slots()[5].1 + self.issue_slots()[6].1
                == self.issue_slots()[2].1,
            self.gmma as int / Sums::divisor(self.visits) <= self.issue_slots()[6].1,
            self.issue_slots()[6].1 <= self.gmma as int / Sums::divisor(self.visits) + 2,
    {
        let visits = Sums::divisor(self.visits);
        lemma_three_parts_round_down(self.tma as int, self.smma as int, self.gmma as int, visits);
        lemma_parts_round_down(self.tma as int, self.smma as int, self.issue as int, visits);
        vstd::arithmetic::div_mod::lemma_div_nonincreasing(self.issue as int, visits);
    }

    /// Law: the two roles publish into one block without a race. All their
    /// slots lie in the block and no two of them are the same.
    pub proof fn law_published_slots_are_disjoint(self, other: Sums, span: u64)
        ensures
            forall|i: int| 0 <= i < 14 ==> (#[trigger] self.pass_slots(span)[i]).0 < COUNTERS,
            forall|i: int| 0 <= i < 7 ==> (#[trigger] other.issue_slots()[i]).0 < COUNTERS,
            forall|i: int, j: int|
                0 <= i < j < 14 ==> (#[trigger] self.pass_slots(span)[i]).0 != (
                #[trigger] self.pass_slots(span)[j]).0,
            forall|i: int, j: int|
                0 <= i < j < 7 ==> (#[trigger] other.issue_slots()[i]).0 != (
                #[trigger] other.issue_slots()[j]).0,
            forall|i: int, j: int|
                0 <= i < 14 && 0 <= j < 7 ==> (#[trigger] self.pass_slots(span)[i]).0 != (
                #[trigger] other.issue_slots()[j]).0,
    {
    }
}

proof fn lemma_mean(sum: int, divisor: int)
    requires
        0 <= sum,
        0 < divisor,
    ensures
        0 <= sum / divisor,
        0 <= sum % divisor < divisor,
        sum == divisor * (sum / divisor) + sum % divisor,
{
    assert(sum < divisor * (sum + 1)) by (nonlinear_arith)
        requires
            0 <= sum,
            0 < divisor,
    ;
    lemma_split_bounds(sum, divisor, sum + 1);
}

/// The means of two parts are no more than the mean of what holds both.
proof fn lemma_parts_round_down(a: int, b: int, whole: int, divisor: int)
    requires
        0 <= a,
        0 <= b,
        a + b <= whole,
        0 < divisor,
    ensures
        0 <= a / divisor,
        0 <= b / divisor,
        a / divisor + b / divisor <= whole / divisor,
{
    lemma_three_parts_round_down(a, b, whole - a - b, divisor);
}

/// The means of three parts add up to the mean of their sum, less two at most.
proof fn lemma_three_parts_round_down(a: int, b: int, c: int, divisor: int)
    requires
        0 <= a,
        0 <= b,
        0 <= c,
        0 < divisor,
    ensures
        0 <= a / divisor,
        0 <= b / divisor,
        0 <= c / divisor,
        a / divisor + b / divisor + c / divisor <= (a + b + c) / divisor,
        (a + b + c) / divisor <= a / divisor + b / divisor + c / divisor + 2,
{
    let sum = a + b + c;
    lemma_mean(a, divisor);
    lemma_mean(b, divisor);
    lemma_mean(c, divisor);
    lemma_mean(sum, divisor);
    let parts = a / divisor + b / divisor + c / divisor;
    let rest = a % divisor + b % divisor + c % divisor;
    let whole = sum / divisor;
    assert(divisor * parts == divisor * (a / divisor) + divisor * (b / divisor) + divisor * (c
        / divisor)) by (nonlinear_arith)
        requires
            parts == a / divisor + b / divisor + c / divisor,
    ;
    assert(parts <= whole && whole <= parts + 2) by (nonlinear_arith)
        requires
            divisor * whole + sum % divisor == divisor * parts + rest,
            0 <= sum % divisor < divisor,
            0 <= rest <= 3 * divisor - 3,
            0 < divisor,
    ;
}

/// Which column a warp publishes at the end of a launch.
#[derive(Clone, Copy, PartialEq, Eq, Structural, Debug)]
pub enum Publisher {
    Pass,
    Issue,
}

/// What a lane publishes: the first lane of the first pass warp and of the
/// issuing warp, and only where the block ran an item.
pub fn publisher(sums: &Sums, warp: u32, lane: u32) -> (role: Option<Publisher>)
    ensures
        role == if lane != 0 || sums.items == 0 {
            None
        } else if warp == 0 {
            Some(Publisher::Pass)
        } else if warp == ISSUE_WARP {
            Some(Publisher::Issue)
        } else {
            None
        },
        role == Some(Publisher::Pass) <==> lane == 0 && warp == 0 && 0 < sums.items,
        role == Some(Publisher::Issue) <==> lane == 0 && warp == 4 && 0 < sums.items,
{
    if lane != 0 || sums.items == 0 {
        None
    } else if warp == 0 {
        Some(Publisher::Pass)
    } else if warp == ISSUE_WARP {
        Some(Publisher::Issue)
    } else {
        None
    }
}

/// Blocks, among the first `count` of a grid's counters, that ran an item.
pub open spec fn live_blocks_of(counters: Seq<u64>, count: int) -> Seq<usize>
    decreases count,
{
    if count <= 0 {
        Seq::empty()
    } else {
        let before = live_blocks_of(counters, count - 1);
        if counters[COUNTERS * (count - 1) + ITEMS] == 0 {
            before
        } else {
            before.push((COUNTERS * (count - 1)) as usize)
        }
    }
}

/// Offsets of the counter blocks that a mean is taken over: those of blocks
/// that ran an item, in order. A trailing fragment of a block is not one.
pub fn live_blocks(counters: &[u64]) -> (offsets: Vec<usize>)
    ensures
        offsets@ == live_blocks_of(counters@, counters@.len() as int / COUNTERS as int),
        forall|i: int|
            0 <= i < offsets@.len() ==> (#[trigger] offsets@[i]) + COUNTERS <= counters@.len(),
        forall|offset: usize| #[trigger]
            offsets@.contains(offset) <==> offset as int % 24 == 0 && offset + 24 <= counters@.len()
                && counters@[offset + 1] != 0,
        forall|i: int, j: int|
            0 <= i < j < offsets@.len() ==> #[trigger] offsets@[i] < #[trigger] offsets@[j],
{
    let blocks: usize = counters.len() / COUNTERS;
    let mut offsets: Vec<usize> = Vec::new();
    for block in 0..blocks
        invariant
            blocks == counters@.len() / 24,
            counters@.len() <= usize::MAX,
            offsets@ == live_blocks_of(counters@, block as int),
            forall|i: int|
                0 <= i < offsets@.len() ==> (#[trigger] offsets@[i]) + COUNTERS <= counters@.len(),
    {
        if counters[COUNTERS * block + ITEMS] != 0 {
            offsets.push(COUNTERS * block);
        }
    }
    proof {
        law_live_blocks_are_those_that_ran(counters@, blocks as int);
    }
    offsets
}

/// Tile visits that either backward kernel makes over a whole shape.
pub fn tile_visits(batches: usize, sequence_length: usize, heads: usize) -> (visits: usize)
    requires
        (sequence_length as int / 128) * (sequence_length as int / 128 + 1) <= usize::MAX,
        (sequence_length as int / 128) * (sequence_length as int / 128 + 1) * batches
            <= usize::MAX,
        (sequence_length as int / 128) * (sequence_length as int / 128 + 1) * batches * heads
            <= usize::MAX,
    ensures
        visits == (sequence_length as int / 128) * (sequence_length as int / 128 + 1) * batches
            * heads,
        visits == query_visits(sequence_length as int / 128) * batches * heads,
{
    let blocks: usize = sequence_length / 128;
    proof {
        law_both_parallel_forms_visit_alike(blocks as int);
    }
    let mut per_plane: usize = 0;
    for i in 0..blocks
        invariant
            per_plane == query_visits(i as int),
            query_visits(blocks as int) <= usize::MAX,
            blocks <= usize::MAX / 128,
    {
        proof {
            lemma_visits_grow(i + 1, blocks as int);
        }
        per_plane = per_plane + (2 * i + 2);
    }
    per_plane * batches * heads
}

proof fn lemma_visits_grow(few: int, many: int)
    requires
        0 <= few <= many,
    ensures
        query_visits(few) <= query_visits(many),
    decreases many - few,
{
    if few < many {
        lemma_visits_grow(few, many - 1);
    }
}

/// Variants the cadence probe times.
pub const CADENCE_VARIANTS: usize = 5;

/// Counters per variant: sustained issue, sustained retirement, one drained
/// chain, and the instructions issued.
pub const CADENCE_SLOTS: usize = 4;

/// Counters the cadence probe writes.
pub const CADENCE_COUNTERS: usize = 20;

/// Shared bytes of the cadence probe: a `[128, 128]` and a `[256, 128]` bf16
/// panel, and a KiB for its completion ring.
pub const CADENCE_SMEM: usize = 99328;

/// Completion semaphores of the cadence probe.
pub const CADENCE_SEMAPHORES: usize = 16;

/// One variant of the cadence probe.
#[derive(Clone, Copy, Debug)]
pub struct CadenceVariant {
    pub name: &'static str,
    /// Instructions a round issues.
    pub instructions: u32,
    /// The round's work, in 128 by 64 by 16 products.
    pub units: u32,
}

/// Instructions a round of a variant issues.
pub open spec fn cadence_instructions(variant: int) -> int {
    if variant == 4 {
        4
    } else {
        8
    }
}

/// The variants, in the order the probe writes them: three widths of the score
/// product, then the gradient product as two bands and as one.
pub fn cadence_variant(variant: usize) -> (timed: CadenceVariant)
    requires
        variant < CADENCE_VARIANTS,
    ensures
        timed.instructions == cadence_instructions(variant as int),
        timed.instructions == if variant == 4 {
            4int
        } else {
            8
        },
        timed.units == if variant == 1 {
            16int
        } else if variant == 2 {
            32
        } else {
            8
        },
        timed.name@ == if variant == 0 {
            "mma_abt  M128_N64   K=128"@
        } else if variant == 1 {
            "mma_abt  M128_N128  K=128"@
        } else if variant == 2 {
            "mma_abt  M128_N256  K=128"@
        } else if variant == 3 {
            "mma_ab   M128_N64x2 K=64 (dQ, shipped)"@
        } else {
            "mma_ab   M128_N128  K=64 (dQ, one band)"@
        },
{
    if variant == 0 {
        CadenceVariant { name: "mma_abt  M128_N64   K=128", instructions: 8, units: 8 }
    } else if variant == 1 {
        CadenceVariant { name: "mma_abt  M128_N128  K=128", instructions: 8, units: 16 }
    } else if variant == 2 {
        CadenceVariant { name: "mma_abt  M128_N256  K=128", instructions: 8, units: 32 }
    } else if variant == 3 {
        CadenceVariant {
            name: "mma_ab   M128_N64x2 K=64 (dQ, shipped)",
            instructions: 8,
            units: 8,
        }
    } else {
        CadenceVariant {
            name: "mma_ab   M128_N128  K=64 (dQ, one band)",
            instructions: 4,
            units: 8,
        }
    }
}

/// What the cadence probe writes for one variant, from the clock readings
/// around its drained chain and its sustained rounds.
pub fn cadence_counters(
    variant: usize,
    rounds: u32,
    latency: u64,
    started: u64,
    issued: u64,
    retired: u64,
) -> (counters: [u64; 4])
    requires
        variant < CADENCE_VARIANTS,
    ensures
        counters@ == seq![
            ticks_between(started, issued),
            ticks_between(started, retired),
            latency,
            (cadence_instructions(variant as int) * rounds) as u64,
        ],
        counters@[0] == (issued - started) % 0x1_0000_0000_0000_0000,
        counters@[1] == (retired - started) % 0x1_0000_0000_0000_0000,
        counters@[2] == latency,
        counters@[3] == rounds * if variant == 4 {
            4int
        } else {
            8
        },
{
    let timed = cadence_variant(variant);
    proof {
        assert(timed.instructions * rounds <= 8 * u32::MAX) by (nonlinear_arith)
            requires
                timed.instructions <= 8,
                rounds <= u32::MAX,
        ;
    }
    let counters: [u64; 4] = [
        issued.wrapping_sub(started),
        retired.wrapping_sub(started),
        latency,
        (timed.instructions as u64) * (rounds as u64),
    ];
    assert(counters@ =~= seq![
        ticks_between(started, issued),
        ticks_between(started, retired),
        latency,
        (cadence_instructions(variant as int) * rounds) as u64,
    ]);
    counters
}

/// One instruction of the banded gradient product.
#[derive(Clone, Copy, PartialEq, Eq, Structural, Debug)]
pub struct BandStep {
    /// Columns past the accumulator's first.
    pub column: u32,
    /// Byte offset of the left operand's chunk.
    pub left: usize,
    /// Byte offset of the right operand's chunk.
    pub right: usize,
    /// Whether the instruction adds to the accumulator.
    pub accumulates: bool,
}

/// The instruction of chunk `chunk` of band `band`: the left operand steps 32
/// bytes along its row, the right one sixteen 128-byte rows within the band's
/// subtile, and a band's first chunk adds only if the whole product does.
pub fn band_step(band: usize, chunk: usize, subtile_bytes: usize, accumulate: bool) -> (step:
    BandStep)
    requires
        band < 8,
        chunk < 16,
        subtile_bytes <= 65536,
    ensures
        step.column == 64 * band,
        step.left == 32 * chunk,
        step.right == subtile_bytes * band + 2048 * chunk,
        step.accumulates == (accumulate || chunk > 0),
{
    proof {
        assert(subtile_bytes * band <= 65536 * 8) by (nonlinear_arith)
            requires
                band < 8,
                subtile_bytes <= 65536,
        ;
        assert(band * subtile_bytes == subtile_bytes * band) by (nonlinear_arith);
    }
    BandStep {
        column: (band as u32) * 64,
        left: chunk * 32,
        right: band * subtile_bytes + chunk * 16 * 128,
        accumulates: accumulate || chunk > 0,
    }
}

/// Law: the blocks that a mean is taken over are those whose item counter, the
/// second of their 24, is not zero, each once and in order.
pub proof fn law_live_blocks_are_those_that_ran(counters: Seq<u64>, count: int)
    requires
        0 <= count,
        24 * count <= counters.len() <= usize::MAX,
    ensures
        forall|offset: usize| #[trigger]
            live_blocks_of(counters, count).contains(offset) <==> offset as int % 24 == 0 && offset
                + 24 <= 24 * count && counters[offset + 1] != 0,
        forall|i: int|
            0 <= i < live_blocks_of(counters, count).len() ==> (#[trigger] live_blocks_of(
                counters,
                count,
            )[i]) + 24 <= 24 * count,
        forall|i: int, j: int|
            0 <= i < j < live_blocks_of(counters, count).len() ==> #[trigger] live_blocks_of(
                counters,
                count,
            )[i] < #[trigger] live_blocks_of(counters, count)[j],
    decreases count,
{
    if 0 < count {
        law_live_blocks_are_those_that_ran(counters, count - 1);
        let before = live_blocks_of(counters, count - 1);
        let after = live_blocks_of(counters, count);
        assert forall|offset: usize| #[trigger]
            after.contains(offset) <==> offset as int % 24 == 0 && offset + 24 <= 24 * count
                && counters[offset + 1] != 0 by {
            if before.contains(offset) {
                let k = choose|k: int| 0 <= k < before.len() && before[k] == offset;
                assert(after[k] == offset);
            }
            if offset == 24 * (count - 1) && counters[offset + 1] != 0 {
                assert(after[before.len() as int] == offset);
            }
            if after.contains(offset) {
                let k = choose|k: int| 0 <= k < after.len() && after[k] == offset;
                if k < before.len() {
                    assert(before[k] == offset);
                    assert(before.contains(offset));
                }
            }
        }
        assert forall|i: int, j: int| 0 <= i < j < after.len() implies #[trigger] after[i]
            < #[trigger] after[j] by {
            assert(after[i] == before[i]);
            if j < before.len() {
                assert(after[j] == before[j]);
            }
        }
    }
}

/// Law: the ticks between two readings take the clock from the first to the
/// second.
pub proof fn law_ticks_lead_from_reading_to_reading(from: u64, to: u64)
    ensures
        (from + ticks_between(from, to)) % 0x1_0000_0000_0000_0000 == to,
{
}

/// Law: what an interval is charged to does not depend on how it is cut: the
/// charges of two neighbouring intervals are the charge of both together.
pub proof fn law_charges_add_up(sums: Sums, phase: Phase, from: u64, between: u64, to: u64)
    ensures
        sums.charged(phase, ticks_between(from, between)).charged(
            phase,
            ticks_between(between, to),
        ) == sums.charged(phase, ticks_between(from, to)),
{
    lemma_spent_twice(sums.feed, from, between, to);
    lemma_spent_twice(sums.recycle, from, between, to);
    lemma_spent_twice(sums.issue, from, between, to);
    lemma_spent_twice(sums.scored, from, between, to);
    lemma_spent_twice(sums.grad, from, between, to);
    lemma_spent_twice(sums.stat, from, between, to);
    lemma_spent_twice(sums.pass, from, between, to);
    lemma_spent_twice(sums.sync, from, between, to);
    lemma_spent_twice(sums.idle, from, between, to);
    lemma_spent_twice(sums.epi, from, between, to);
    lemma_spent_twice(sums.tma, from, between, to);
    lemma_spent_twice(sums.smma, from, between, to);
    lemma_spent_twice(sums.gmma, from, between, to);
    lemma_spent_twice(sums.tread, from, between, to);
    lemma_spent_twice(sums.sstore, from, between, to);
    lemma_spent_twice(sums.gap, from, between, to);
    lemma_spent_twice(sums.fill, from, between, to);
    lemma_spent_twice(sums.drainwait, from, between, to);
}

/// A counter after the ticks of two neighbouring intervals.
proof fn lemma_spent_twice(before: u64, from: u64, between: u64, to: u64)
    ensures
        before.wrapping_add(ticks_between(from, between)).wrapping_add(ticks_between(between, to))
            == before.wrapping_add(ticks_between(from, to)),
{
}

} // verus!
