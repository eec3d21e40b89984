//! The residency probe: how many blocks a grid really had on the device at
//! once, and the byte at which a plan stops admitting two.

use vstd::prelude::*;

verus! {

/// Words each block reports: its multiprocessor first, when it entered third and
/// when it left fourth.
pub const SLOTS: usize = 4;

/// Multiprocessor of a block.
pub open spec fn sm_of(report: Seq<u64>, block: int) -> u64 {
    report[4 * block]
}

/// Multiprocessors of the first `blocks` blocks.
pub open spec fn sms_of(report: Seq<u64>, blocks: int) -> Seq<u64> {
    Seq::new(blocks as nat, |block: int| sm_of(report, block))
}

/// How many of the first `blocks` blocks a multiprocessor hosted.
pub open spec fn hosted(report: Seq<u64>, blocks: int, sm: u64) -> int
    decreases blocks,
{
    if blocks <= 0 {
        0
    } else {
        hosted(report, blocks - 1, sm) + if sm_of(report, blocks - 1) == sm {
            1int
        } else {
            0
        }
    }
}

/// How many of the first `blocks` blocks have entered and not left by `time`.
pub open spec fn live_at(report: Seq<u64>, blocks: int, time: int) -> int
    decreases blocks,
{
    if blocks <= 0 {
        0
    } else {
        live_at(report, blocks - 1, time) + (if report[4 * (blocks - 1) + 2] <= time {
            1int
        } else {
            0
        }) - (if report[4 * (blocks - 1) + 3] <= time {
            1int
        } else {
            0
        })
    }
}

/// An entry or an exit, by time.
#[derive(Clone, Copy)]
struct Event {
    time: u64,
    enters: bool,
}

impl Event {
    spec fn delta(self) -> int {
        if self.enters {
            1
        } else {
            -1
        }
    }

    /// Exits come before entries of the same time.
    spec fn precedes(self, other: Event) -> bool {
        self.time < other.time || (self.time == other.time && (!self.enters || other.enters))
    }
}

spec fn in_order(events: Seq<Event>) -> bool {
    forall|i: int, j: int|
        0 <= i < j < events.len() ==> (#[trigger] events[i]).precedes(#[trigger] events[j])
}

/// Entries less exits among the events up to a time.
spec fn net_at(events: Seq<Event>, time: int) -> int
    decreases events.len(),
{
    if events.len() == 0 {
        0
    } else {
        net_at(events.drop_last(), time) + if events.last().time <= time {
            events.last().delta()
        } else {
            0
        }
    }
}

/// Entries less exits among the first `count` events.
spec fn net_of(events: Seq<Event>, count: int) -> int
    decreases count,
{
    if count <= 0 {
        0
    } else {
        net_of(events, count - 1) + events[count - 1].delta()
    }
}

proof fn lemma_net_of_insert(events: Seq<Event>, place: int, event: Event, time: int)
    requires
        0 <= place <= events.len(),
    ensures
        net_at(events.insert(place, event), time) == net_at(events, time) + if event.time <= time {
            event.delta()
        } else {
            0
        },
    decreases events.len(),
{
    let after = events.insert(place, event);
    if place == events.len() {
        assert(after.drop_last() =~= events);
    } else {
        assert(after.drop_last() =~= events.drop_last().insert(place, event));
        assert(after.last() == events.last());
        lemma_net_of_insert(events.drop_last(), place, event, time);
    }
}

/// Inserts an event where it belongs.
fn insert_event(events: &mut Vec<Event>, event: Event)
    requires
        in_order(old(events)@),
        old(events)@.len() < usize::MAX,
    ensures
        in_order(final(events)@),
        final(events)@.len() == old(events)@.len() + 1,
        forall|time: int| #[trigger]
            net_at(final(events)@, time) == net_at(old(events)@, time) + if event.time <= time {
                event.delta()
            } else {
                0
            },
{
    let mut place: usize = events.len();
    while place > 0 && (event.time < events[place - 1].time || (event.time == events[place - 1].time
        && !event.enters && events[place - 1].enters))
        invariant
            place <= events@.len(),
            events@ == old(events)@,
            in_order(events@),
            forall|i: int| place <= i < events@.len() ==> event.precedes(#[trigger] events@[i]),
        decreases place,
    {
        place = place - 1;
    }
    let ghost before = events@;
    events.insert(place, event);
    proof {
        assert(events@ =~= before.insert(place as int, event));
        if place > 0 {
            assert(before[place - 1].precedes(event));
        }
        assert forall|i: int, j: int| 0 <= i < j < events@.len() implies (
        #[trigger] events@[i]).precedes(#[trigger] events@[j]) by {
            let a = if i < place {
                before[i]
            } else if i == place {
                event
            } else {
                before[i - 1]
            };
            let b = if j < place {
                before[j]
            } else if j == place {
                event
            } else {
                before[j - 1]
            };
            assert(events@[i] == a && events@[j] == b);
            if j == place && i < place - 1 {
                assert(before[i].precedes(before[place - 1]));
            }
        }
        assert forall|time: int| #[trigger]
            net_at(events@, time) == net_at(before, time) + if event.time <= time {
                event.delta()
            } else {
                0
            } by {
            lemma_net_of_insert(before, place as int, event, time);
        }
    }
}

/// In order, the events up to a time are a prefix, and its net is the net then.
proof fn lemma_net_of_prefix(events: Seq<Event>, count: int, time: int)
    requires
        0 <= count <= events.len(),
        forall|i: int| 0 <= i < count ==> (#[trigger] events[i]).time <= time,
        forall|i: int| count <= i < events.len() ==> (#[trigger] events[i]).time > time,
    ensures
        net_at(events, time) == net_of(events, count),
    decreases events.len(),
{
    if events.len() > 0 {
        let before = events.drop_last();
        if count == events.len() {
            lemma_net_of_prefix(before, count - 1, time);
            lemma_net_of_same(events, before, count - 1);
        } else {
            lemma_net_of_prefix(before, count, time);
            lemma_net_of_same(events, before, count);
        }
    }
}

proof fn lemma_net_of_same(a: Seq<Event>, b: Seq<Event>, count: int)
    requires
        0 <= count <= a.len(),
        count <= b.len(),
        forall|i: int| 0 <= i < count ==> a[i] == b[i],
    ensures
        net_of(a, count) == net_of(b, count),
    decreases count,
{
    if count > 0 {
        lemma_net_of_same(a, b, count - 1);
    }
}

/// The number of events up to a time.
proof fn lemma_prefix_exists(events: Seq<Event>, time: int) -> (count: int)
    requires
        in_order(events),
    ensures
        0 <= count <= events.len(),
        forall|i: int| 0 <= i < count ==> (#[trigger] events[i]).time <= time,
        forall|i: int| count <= i < events.len() ==> (#[trigger] events[i]).time > time,
    decreases events.len(),
{
    if events.len() == 0 {
        0
    } else {
        let before = events.drop_last();
        assert(in_order(before)) by {
            assert forall|i: int, j: int| 0 <= i < j < before.len() implies (
            #[trigger] before[i]).precedes(#[trigger] before[j]) by {
                assert(events[i].precedes(events[j]));
            }
        }
        let count = lemma_prefix_exists(before, time);
        let last = events.len() - 1;
        if events[last].time <= time {
            assert forall|i: int| 0 <= i < events.len() implies (#[trigger] events[i]).time
                <= time by {
                if i < last {
                    assert(events[i].precedes(events[last]));
                }
            }
            events.len() as int
        } else {
            assert forall|i: int| 0 <= i < count implies (#[trigger] events[i]).time <= time by {
                assert(before[i] == events[i]);
            }
            assert forall|i: int| count <= i < events.len() implies (#[trigger] events[i]).time
                > time by {
                if i < last {
                    assert(before[i] == events[i]);
                }
            }
            count
        }
    }
}

/// Adding up some events moves the net by no more than their number.
proof fn lemma_net_moves_by_one(events: Seq<Event>, from: int, to: int)
    requires
        0 <= from <= to <= events.len(),
    ensures
        -(to - from) <= net_of(events, to) - net_of(events, from) <= to - from,
    decreases to - from,
{
    if from < to {
        lemma_net_moves_by_one(events, from, to - 1);
    }
}

/// Every block that entered has left in the end.
proof fn lemma_nothing_stays(report: Seq<u64>, blocks: int)
    ensures
        live_at(report, blocks, u64::MAX as int) == 0,
    decreases blocks,
{
    if blocks > 0 {
        lemma_nothing_stays(report, blocks - 1);
    }
}

/// The net starts and ends at zero and has two events a block in between, so it
/// never strays further than the number of blocks.
proof fn lemma_net_is_at_most_the_blocks(report: Seq<u64>, events: Seq<Event>, blocks: int)
    requires
        events.len() == 2 * blocks,
        net_at(events, u64::MAX as int) == live_at(report, blocks, u64::MAX as int),
    ensures
        forall|count: int|
            0 <= count <= events.len() ==> -blocks <= #[trigger] net_of(events, count) <= blocks,
{
    lemma_nothing_stays(report, blocks);
    lemma_net_of_prefix(events, events.len() as int, u64::MAX as int);
    assert forall|count: int| 0 <= count <= events.len() implies -blocks <= #[trigger] net_of(
        events,
        count,
    ) <= blocks by {
        lemma_net_moves_by_one(events, 0, count);
        lemma_net_moves_by_one(events, count, events.len() as int);
    }
}

/// Where the running net first reaches its maximum, it is the net at the time of
/// the event it has just passed: what follows at that time are entries.
proof fn lemma_peak_is_reached(events: Seq<Event>, count: int, peak: int)
    requires
        in_order(events),
        0 < count <= events.len(),
        net_of(events, count) == peak,
        net_of(events, count - 1) < peak,
        forall|i: int| 0 <= i <= events.len() ==> #[trigger] net_of(events, i) <= peak,
    ensures
        net_at(events, events[count - 1].time as int) == peak,
{
    let time = events[count - 1].time as int;
    let all = lemma_prefix_exists(events, time);
    lemma_net_of_prefix(events, all, time);
    assert(events[count - 1].enters);
    lemma_entries_only_add(events, count, all);
    assert(net_of(events, all) <= peak);
}

proof fn lemma_entries_only_add(events: Seq<Event>, from: int, to: int)
    requires
        in_order(events),
        0 < from <= to <= events.len(),
        events[from - 1].enters,
        forall|i: int|
            from <= i < to ==> (#[trigger] events[i]).time == events[from - 1].time,
    ensures
        net_of(events, from) <= net_of(events, to),
    decreases to - from,
{
    if from < to {
        assert(events[from - 1].precedes(events[to - 1]));
        lemma_entries_only_add(events, from, to - 1);
    }
}

/// The list counts each multiprocessor of the first `blocks` blocks once.
spec fn counts_all(per_sm: Seq<(u64, usize)>, report: Seq<u64>, blocks: int) -> bool {
    &&& per_sm.len() <= blocks
    &&& forall|i: int, j: int|
        0 <= i < j < per_sm.len() ==> (#[trigger] per_sm[i]).0 != (#[trigger] per_sm[j]).0
    &&& forall|i: int| 0 <= i < per_sm.len() ==> counted(#[trigger] per_sm[i], report, blocks)
    &&& forall|sm: u64| #[trigger] hosted(report, blocks, sm) >= 1 ==> lists(per_sm, sm)
}

spec fn counted(entry: (u64, usize), report: Seq<u64>, blocks: int) -> bool {
    entry.1 >= 1 && entry.1 == hosted(report, blocks, entry.0)
}

spec fn lists(per_sm: Seq<(u64, usize)>, sm: u64) -> bool {
    exists|i: int| 0 <= i < per_sm.len() && (#[trigger] per_sm[i]).0 == sm
}

/// Distinct multiprocessors, the most blocks any one of them hosted, and the
/// largest number of blocks that were live at one instant.
///
/// The last is a sweep over the blocks' entries and exits in order of time, not
/// a comparison of every pair.
pub fn analyze(report: &[u64]) -> (result: (usize, usize, i32))
    requires
        report@.len() / 4 <= i32::MAX,
    ensures
        ({
            let blocks = report@.len() as int / 4;
            &&& result.0 == sms_of(report@, blocks).to_set().len()
            &&& forall|sm: u64| #[trigger] hosted(report@, blocks, sm) <= result.1
            &&& blocks == 0 ==> result.1 == 0
            &&& blocks > 0 ==> exists|sm: u64| #[trigger] hosted(report@, blocks, sm) == result.1
            &&& forall|time: int| #[trigger] live_at(report@, blocks, time) <= result.2
            &&& result.2 >= 0
            &&& result.2 > 0 ==> exists|time: int| #[trigger]
                live_at(report@, blocks, time) == result.2
        }),
{
    assert(report.len() == report@.len());
    let blocks: usize = report.len() / SLOTS;
    let mut per_sm: Vec<(u64, usize)> = Vec::new();
    let mut events: Vec<Event> = Vec::new();
    for block in 0..blocks
        invariant
            report@.len() <= usize::MAX,
            blocks == report@.len() / 4,
            counts_all(per_sm@, report@, block as int),
            events@.len() == 2 * block,
            in_order(events@),
            forall|time: int| #[trigger]
                net_at(events@, time) == live_at(report@, block as int, time),
    {
        let at: usize = SLOTS * block;
        count_block(&mut per_sm, report[at], Ghost(report@), Ghost(block as int));
        insert_event(&mut events, Event { time: report[at + 2], enters: true });
        insert_event(&mut events, Event { time: report[at + 3], enters: false });
    }
    let mut most: usize = 0;
    for i in 0..per_sm.len()
        invariant
            forall|j: int| 0 <= j < i ==> (#[trigger] per_sm@[j]).1 <= most,
            i > 0 ==> exists|j: int| 0 <= j < i && (#[trigger] per_sm@[j]).1 == most,
            i == 0 ==> most == 0,
            counts_all(per_sm@, report@, blocks as int),
    {
        let ghost previous = most;
        if per_sm[i].1 > most {
            most = per_sm[i].1;
        }
        proof {
            assert(counted(per_sm@[i as int], report@, blocks as int));
            if most == previous && i > 0 {
                let j = choose|j: int| 0 <= j < i && (#[trigger] per_sm@[j]).1 == previous;
                assert(per_sm@[j].1 == most);
            } else {
                assert(per_sm@[i as int].1 == most);
            }
        }
    }
    let mut live: i32 = 0;
    let mut peak: i32 = 0;
    let ghost mut reached: int = 0;
    proof {
        lemma_net_is_at_most_the_blocks(report@, events@, blocks as int);
    }
    for i in 0..events.len()
        invariant
            blocks <= i32::MAX,
            forall|j: int|
                0 <= j <= events@.len() ==> -blocks <= #[trigger] net_of(events@, j) <= blocks,
            live == net_of(events@, i as int),
            0 <= peak,
            forall|j: int| 0 <= j <= i ==> #[trigger] net_of(events@, j) <= peak,
            0 <= reached <= i,
            net_of(events@, reached) == peak,
            peak > 0 ==> reached > 0 && net_of(events@, reached - 1) < peak,
    {
        assert(-blocks <= net_of(events@, i + 1) <= blocks);
        if events[i].enters {
            live = live + 1;
        } else {
            live = live - 1;
        }
        if live > peak {
            peak = live;
            proof {
                reached = i + 1;
            }
        }
    }
    proof {
        let n = blocks as int;
        lemma_distinct_count(report@, n, per_sm@);
        assert forall|sm: u64| #[trigger] hosted(report@, n, sm) <= most by {
            if hosted(report@, n, sm) >= 1 {
                assert(lists(per_sm@, sm));
                let i = choose|i: int| 0 <= i < per_sm@.len() && (#[trigger] per_sm@[i]).0 == sm;
                assert(per_sm@[i].1 <= most);
            }
        }
        if n > 0 {
            lemma_hosts_something(report@, n);
            assert(lists(per_sm@, sm_of(report@, n - 1)));
            let j = choose|j: int| 0 <= j < per_sm@.len() && (#[trigger] per_sm@[j]).1 == most;
            assert(counted(per_sm@[j], report@, n));
        }
        assert forall|time: int| #[trigger] live_at(report@, n, time) <= peak by {
            let count = lemma_prefix_exists(events@, time);
            lemma_net_of_prefix(events@, count, time);
            assert(net_at(events@, time) == live_at(report@, n, time));
        }
        if peak > 0 {
            lemma_peak_is_reached(events@, reached, peak as int);
            let time = events@[reached - 1].time as int;
            assert(net_at(events@, time) == live_at(report@, n, time));
        }
    }
    (per_sm.len(), most, peak)
}

proof fn lemma_hosts_something(report: Seq<u64>, blocks: int)
    requires
        0 < blocks,
    ensures
        hosted(report, blocks, sm_of(report, blocks - 1)) >= 1,
{
    lemma_hosted_nonnegative(report, blocks - 1, sm_of(report, blocks - 1));
}

proof fn lemma_hosted_nonnegative(report: Seq<u64>, blocks: int, sm: u64)
    ensures
        hosted(report, blocks, sm) >= 0,
        blocks >= 0 ==> hosted(report, blocks, sm) <= blocks,
    decreases blocks,
{
    if blocks > 0 {
        lemma_hosted_nonnegative(report, blocks - 1, sm);
    }
}

proof fn lemma_hosted_means_present(report: Seq<u64>, blocks: int, sm: u64)
    requires
        0 <= blocks,
    ensures
        hosted(report, blocks, sm) >= 1 <==> sms_of(report, blocks).contains(sm),
    decreases blocks,
{
    if blocks > 0 {
        lemma_hosted_means_present(report, blocks - 1, sm);
        lemma_hosted_nonnegative(report, blocks - 1, sm);
        let all = sms_of(report, blocks);
        let before = sms_of(report, blocks - 1);
        if sm_of(report, blocks - 1) == sm {
            assert(all[blocks - 1] == sm);
        } else if before.contains(sm) {
            let i = choose|i: int| 0 <= i < before.len() && before[i] == sm;
            assert(all[i] == sm);
        } else if all.contains(sm) {
            let i = choose|i: int| 0 <= i < all.len() && all[i] == sm;
            assert(before[i] == sm);
        }
    }
}

/// A list of the distinct multiprocessors is as long as their set is large.
proof fn lemma_distinct_count(report: Seq<u64>, blocks: int, per_sm: Seq<(u64, usize)>)
    requires
        0 <= blocks,
        counts_all(per_sm, report, blocks),
    ensures
        sms_of(report, blocks).to_set().len() == per_sm.len(),
{
    let keys = Seq::new(per_sm.len(), |i: int| per_sm[i].0);
    assert(keys.no_duplicates()) by {
        assert forall|i: int, j: int| 0 <= i < keys.len() && 0 <= j < keys.len() && i != j implies
            keys[i] != keys[j] by {
            if i < j {
                assert(per_sm[i].0 != per_sm[j].0);
            } else {
                assert(per_sm[j].0 != per_sm[i].0);
            }
        }
    }
    keys.unique_seq_to_set();
    assert(keys.to_set() =~= sms_of(report, blocks).to_set()) by {
        assert forall|sm: u64| keys.to_set().contains(sm) == sms_of(report, blocks).to_set().contains(
            sm,
        ) by {
            lemma_hosted_means_present(report, blocks, sm);
            if keys.contains(sm) {
                let i = choose|i: int| 0 <= i < keys.len() && keys[i] == sm;
                assert(counted(per_sm[i], report, blocks));
            }
            if hosted(report, blocks, sm) >= 1 {
                assert(lists(per_sm, sm));
                let i = choose|i: int| 0 <= i < per_sm.len() && (#[trigger] per_sm[i]).0 == sm;
                assert(keys[i] == sm);
            }
        }
    }
}

/// Counts block number `block`, on multiprocessor `sm`, into the list.
fn count_block(
    per_sm: &mut Vec<(u64, usize)>,
    sm: u64,
    Ghost(report): Ghost<Seq<u64>>,
    Ghost(block): Ghost<int>,
)
    requires
        0 <= block < usize::MAX,
        sm == sm_of(report, block),
        counts_all(old(per_sm)@, report, block),
    ensures
        counts_all(final(per_sm)@, report, block + 1),
{
    let ghost before = per_sm@;
    let listed: usize = per_sm.len();
    for i in 0..listed
        invariant
            listed == before.len(),
            per_sm@ == before,
            forall|j: int| 0 <= j < i ==> (#[trigger] before[j]).0 != sm,
            counts_all(before, report, block),
            0 <= block < usize::MAX,
            sm == sm_of(report, block),
    {
        if per_sm[i].0 == sm {
            proof {
                lemma_hosted_nonnegative(report, block, sm);
            }
            let count: usize = per_sm[i].1;
            per_sm.set(i, (sm, count + 1));
            proof {
                let after = per_sm@;
                assert forall|j: int| 0 <= j < after.len() implies counted(
                    #[trigger] after[j],
                    report,
                    block + 1,
                ) by {
                    assert(counted(before[j], report, block));
                    if j != i {
                        assert(after[j] == before[j]);
                        if j < i {
                            assert(before[j].0 != before[i as int].0);
                        } else {
                            assert(before[i as int].0 != before[j].0);
                        }
                    }
                }
                assert forall|other: u64| #[trigger]
                    hosted(report, block + 1, other) >= 1 implies lists(after, other) by {
                    if other == sm {
                        assert(after[i as int].0 == other);
                    } else {
                        assert(hosted(report, block, other) >= 1 && lists(before, other));
                        let j = choose|j: int|
                            0 <= j < before.len() && (#[trigger] before[j]).0 == other;
                        assert(after[j].0 == other);
                    }
                }
                assert forall|a: int, b: int| 0 <= a < b < after.len() implies (
                #[trigger] after[a]).0 != (#[trigger] after[b]).0 by {
                    assert(before[a].0 != before[b].0);
                }
            }
            return ;
        }
    }
    per_sm.push((sm, 1));
    proof {
        let after = per_sm@;
        lemma_hosted_nonnegative(report, block, sm);
        assert(hosted(report, block, sm) == 0) by {
            if hosted(report, block, sm) >= 1 {
                let j = choose|j: int| 0 <= j < before.len() && (#[trigger] before[j]).0 == sm;
                assert(before[j].0 != sm);
            }
        }
        assert forall|j: int| 0 <= j < after.len() implies counted(
            #[trigger] after[j],
            report,
            block + 1,
        ) by {
            if j < before.len() {
                assert(after[j] == before[j]);
            }
        }
        assert forall|other: u64| #[trigger]
            hosted(report, block + 1, other) >= 1 implies lists(after, other) by {
            if other == sm {
                assert(after[before.len() as int].0 == other);
            } else {
                assert(hosted(report, block, other) >= 1 && lists(before, other));
                let j = choose|j: int| 0 <= j < before.len() && (#[trigger] before[j]).0 == other;
                assert(after[j].0 == other);
            }
        }
        assert forall|a: int, b: int| 0 <= a < b < after.len() implies (#[trigger] after[a]).0 != (
        #[trigger] after[b]).0 by {
            assert(before[a].0 == after[a].0);
            if b < before.len() {
                assert(before[b].0 == after[b].0);
            }
        }
    }
}

/// A search for the byte at which a plan stops admitting two blocks: `fits` bytes
/// admit them, `over` bytes do not.
#[derive(Clone, Copy, Debug, PartialEq, Eq, Structural)]
pub struct Bisection {
    pub fits: u32,
    pub over: u32,
}

/// What is left of a search when `admits` has answered every probe of it.
pub open spec fn settled(admits: spec_fn(u32) -> bool, search: Bisection) -> Bisection
    decreases search.over - search.fits,
{
    if search.over - search.fits > 1 {
        let middle = search.middle();
        settled(admits, search.answered(admits(middle)))
    } else {
        search
    }
}

impl Bisection {
    pub open spec fn middle(self) -> u32 {
        (self.fits + (self.over - self.fits) / 2) as u32
    }

    pub open spec fn answered(self, admitted: bool) -> Bisection {
        if admitted {
            Bisection { fits: self.middle(), ..self }
        } else {
            Bisection { over: self.middle(), ..self }
        }
    }

    /// A search below a plan that does not admit two.
    pub fn new(plan: u32) -> (search: Bisection)
        ensures
            search == (Bisection { fits: 0, over: plan }),
    {
        Bisection { fits: 0, over: plan }
    }

    /// The bytes to ask about next, until the two ends are neighbours.
    pub fn probe(&self) -> (bytes: Option<u32>)
        requires
            self.fits <= self.over,
        ensures
            self.over - self.fits > 1 ==> bytes == Some(self.middle()),
            self.over - self.fits <= 1 ==> bytes == None::<u32>,
            bytes is Some ==> bytes->0 == (self.fits + self.over) / 2,
            bytes is Some ==> self.fits < bytes->0 < self.over,
    {
        if self.over - self.fits > 1 {
            Some(self.fits + (self.over - self.fits) / 2)
        } else {
            None
        }
    }

    /// Takes in how many blocks the probed bytes admit.
    pub fn answer(&mut self, blocks: u32)
        requires
            old(self).over - old(self).fits > 1,
        ensures
            *final(self) == old(self).answered(blocks >= 2),
            final(self).fits < final(self).over,
            final(self).over - final(self).fits < old(self).over - old(self).fits,
            blocks >= 2 ==> final(self).over == old(self).over,
            blocks >= 2 ==> final(self).fits == (old(self).fits + old(self).over) / 2,
            blocks < 2 ==> final(self).fits == old(self).fits,
            blocks < 2 ==> final(self).over == (old(self).fits + old(self).over) / 2,
    {
        let middle: u32 = self.fits + (self.over - self.fits) / 2;
        if blocks >= 2 {
            self.fits = middle;
        } else {
            self.over = middle;
        }
    }
}

/// A search ends with neighbours, the lower of which admits two blocks and the
/// upper of which does not, whatever each probe answers; only an end that was
/// never probed is taken on trust.
pub proof fn law_bisection_finds_an_edge(admits: spec_fn(u32) -> bool, search: Bisection)
    requires
        search.fits < search.over,
    ensures
        ({
            let end = settled(admits, search);
            &&& end.over == end.fits + 1
            &&& search.fits <= end.fits < search.over
            &&& end.fits == search.fits || admits(end.fits)
            &&& end.over == search.over || !admits(end.over)
        }),
    decreases search.over - search.fits,
{
    if search.over - search.fits > 1 {
        law_bisection_finds_an_edge(admits, search.answered(admits(search.middle())));
    }
}

/// Where more bytes never admit more blocks, the end of a search is the most bytes
/// that admit two.
pub proof fn law_bisection_finds_the_most(admits: spec_fn(u32) -> bool, search: Bisection, bytes: u32)
    requires
        search.fits < search.over,
        forall|a: u32, b: u32| a <= b && #[trigger] admits(b) ==> #[trigger] admits(a),
        admits(search.fits),
        !admits(search.over),
    ensures
        admits(bytes) <==> bytes <= settled(admits, search).fits,
{
    law_bisection_finds_an_edge(admits, search);
    let end = settled(admits, search);
    assert(admits(end.fits) && !admits(end.over));
}

/// Law: a report is read block by block, four words each. One more block counts on
/// the multiprocessor that its first word names and on no other, and is live from
/// its third word until its fourth.
pub proof fn law_each_block_counts_once(report: Seq<u64>, blocks: int, sm: u64, time: int)
    requires
        0 <= blocks,
        report[4 * blocks + 2] <= report[4 * blocks + 3],
    ensures
        hosted(report, 0, sm) == 0,
        hosted(report, blocks + 1, sm) == hosted(report, blocks, sm) + if report[4 * blocks]
            == sm {
            1int
        } else {
            0
        },
        live_at(report, 0, time) == 0,
        live_at(report, blocks + 1, time) == live_at(report, blocks, time) + if report[4 * blocks
            + 2] <= time < report[4 * blocks + 3] {
            1int
        } else {
            0
        },
        sms_of(report, blocks + 1) == sms_of(report, blocks).push(report[4 * blocks]),
{
    assert(sms_of(report, blocks + 1) =~= sms_of(report, blocks).push(report[4 * blocks]));
}

/// Law: no more blocks are live at an instant than there are, nor hosted by one
/// multiprocessor, where each left no earlier than it entered.
pub proof fn law_no_more_are_live_than_there_are(report: Seq<u64>, blocks: int, sm: u64, time: int)
    requires
        0 <= blocks,
        forall|block: int|
            0 <= block < blocks ==> report[#[trigger] (4 * block + 2)] <= report[4 * block + 3],
    ensures
        0 <= live_at(report, blocks, time) <= blocks,
        0 <= hosted(report, blocks, sm) <= blocks,
    decreases blocks,
{
    if 0 < blocks {
        law_no_more_are_live_than_there_are(report, blocks - 1, sm, time);
        assert(report[4 * (blocks - 1) + 2] <= report[4 * (blocks - 1) + 3]);
    }
}

} // verus!
