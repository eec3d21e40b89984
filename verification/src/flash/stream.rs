//! The tile stream of one attention work item.
//!
//! One thread issues: it copies tiles into a ring of stages, starts the score
//! product of the next tile, and after the block barrier starts the product
//! that accumulates the current one. The pass warps read a score segment and
//! write one operand buffer per tile. Every ring is addressed by the tile
//! number, and every wait names the tile it waits for. This module decides
//! what each iteration does, and proves that the rings are never overrun, that
//! no wait can be mistaken for another round of its ring, and that nothing
//! waits for work that has not been started.

use crate::flash::schedule::{correction_of, Correction};
use vstd::prelude::*;

verus! {

/// Depths of the rings of one kernel.
#[derive(Clone, Copy, PartialEq, Eq, Structural, Debug)]
pub struct StreamDepths {
    /// Stages of the streamed operands.
    pub stages: u32,
    /// Buffers of the operand that the pass writes.
    pub operands: u32,
    /// Depth of the completion ring of the accumulating product.
    pub lag: u32,
}

/// A refill: once the accumulation of tile `after` is complete, load `tile`.
#[derive(Clone, Copy, PartialEq, Eq, Structural, Debug)]
pub struct Refill {
    pub tile: u32,
    pub after: u32,
}

/// What the issuing thread does for one tile.
#[derive(Clone, Copy, PartialEq, Eq, Structural, Debug)]
pub struct IssueStep {
    /// Done first: the scores below may wait for this very load.
    pub refill: Option<Refill>,
    /// Tile whose scores start before the barrier, once it is loaded.
    pub score: Option<u32>,
    /// Whether the product after the barrier adds to its accumulator; the
    /// first one overwrites it.
    pub accumulates: bool,
}

/// Ring depths of the forward kernel.
pub fn forward_depths() -> (depths: StreamDepths)
    ensures
        depths == (StreamDepths { stages: 2, operands: 1, lag: 3 }),
        depths.well_formed(),
{
    StreamDepths { stages: 2, operands: 1, lag: 3 }
}

/// Ring depths of both backward kernels.
pub fn backward_depths() -> (depths: StreamDepths)
    ensures
        depths == (StreamDepths { stages: 3, operands: 2, lag: 3 }),
        depths.well_formed(),
{
    StreamDepths { stages: 3, operands: 2, lag: 3 }
}

impl StreamDepths {
    /// Two stages are the floor of the issue order and four what the shared
    /// memory plans allow; a completion ring is deeper than its deepest wait.
    pub open spec fn well_formed(self) -> bool {
        &&& 2 <= self.stages <= 4
        &&& 1 <= self.operands < self.lag
    }

    /// Tiles loaded before the first iteration.
    pub open spec fn opening(self, tiles: int) -> int {
        if self.stages < tiles {
            self.stages as int
        } else {
            tiles
        }
    }

    /// Tile that iteration `tile` loads.
    pub open spec fn refill_at(self, tile: int, tiles: int) -> Option<int> {
        if 0 < tile && tile + self.stages - 1 < tiles {
            Some(tile + self.stages - 1)
        } else {
            None
        }
    }

    /// Tile whose scores iteration `tile` starts.
    pub open spec fn score_at(self, tile: int, tiles: int) -> Option<int> {
        if tile + 1 < tiles {
            Some(tile + 1)
        } else {
            None
        }
    }

    /// Tile whose accumulation frees the buffer that the pass of `tile` writes.
    pub open spec fn recycled_at(self, tile: int) -> Option<int> {
        if self.operands <= tile {
            Some(tile - self.operands)
        } else {
            None
        }
    }

    /// Number of tiles to load before the first iteration.
    pub fn opening_loads(&self, tiles: u32) -> (count: u32)
        ensures
            count == self.opening(tiles as int),
            count <= self.stages && count <= tiles,
            count == self.stages || count == tiles,
    {
        if self.stages < tiles {
            self.stages
        } else {
            tiles
        }
    }

    /// What the issuing thread does around the barrier of `tile`.
    pub fn issue_step(&self, tile: u32, tiles: u32) -> (step: IssueStep)
        requires
            self.well_formed(),
            tile < tiles,
            tiles + self.stages <= u32::MAX,
        ensures
            match step.refill {
                Some(refill) => {
                    &&& self.refill_at(tile as int, tiles as int) == Some(refill.tile as int)
                    &&& refill.after == tile - 1
                },
                None => self.refill_at(tile as int, tiles as int) is None,
            },
            match step.score {
                Some(next) => self.score_at(tile as int, tiles as int) == Some(next as int),
                None => self.score_at(tile as int, tiles as int) is None,
            },
            step.accumulates == (tile != 0),
            step.refill is Some <==> 0 < tile && tile + self.stages <= tiles,
            step.refill is Some ==> step.refill->0.tile + 1 == tile + self.stages,
            step.refill is Some ==> step.refill->0.after + 1 == tile,
            step.score is Some <==> tile + 1 < tiles,
            step.score is Some ==> step.score->0 == tile + 1,
    {
        let ahead: u32 = tile + self.stages - 1;
        let refill: Option<Refill> = if tile > 0 && ahead < tiles {
            Some(Refill { tile: ahead, after: tile - 1 })
        } else {
            None
        };
        let score: Option<u32> = if tile + 1 < tiles {
            Some(tile + 1)
        } else {
            None
        };
        IssueStep { refill, score, accumulates: tile != 0 }
    }

    /// The accumulation the pass of `tile` waits for before it writes its
    /// operand buffer.
    pub fn recycled(&self, tile: u32) -> (after: Option<u32>)
        ensures
            match after {
                Some(earlier) => self.recycled_at(tile as int) == Some(earlier as int),
                None => self.recycled_at(tile as int) is None,
            },
            after is Some <==> self.operands <= tile,
            after is Some ==> after->0 + self.operands == tile,
    {
        if tile >= self.operands {
            Some(tile - self.operands)
        } else {
            None
        }
    }
}

/// How far a stream has come, as counts of the tiles 0, 1, 2, ... in order.
pub struct StreamState {
    /// Tiles whose load has been started.
    pub loaded: int,
    /// Tiles whose score product has been started.
    pub scored: int,
    /// Tiles whose pass every warp has finished.
    pub passed: int,
    /// Tiles whose accumulation has been started.
    pub accumulated: int,
    /// Accumulations the issuing thread knows to be complete.
    pub issuer_seen: int,
    /// Accumulations every pass warp knows to be complete.
    pub pass_seen: int,
}

/// The state at the head of the first iteration.
pub open spec fn opened(depths: StreamDepths, tiles: int) -> StreamState {
    StreamState {
        loaded: depths.opening(tiles),
        scored: 1,
        passed: 0,
        accumulated: 0,
        issuer_seen: 0,
        pass_seen: 0,
    }
}

/// The state after the issuing thread's part before the barrier of `tile`.
pub open spec fn after_issue(
    depths: StreamDepths,
    tiles: int,
    tile: int,
    state: StreamState,
) -> StreamState {
    StreamState {
        loaded: if depths.refill_at(tile, tiles) is Some {
            state.loaded + 1
        } else {
            state.loaded
        },
        scored: if depths.score_at(tile, tiles) is Some {
            state.scored + 1
        } else {
            state.scored
        },
        issuer_seen: if depths.refill_at(tile, tiles) is Some {
            tile
        } else {
            state.issuer_seen
        },
        ..state
    }
}

/// The state at the head of the iteration after `tile`: the barrier has been
/// passed and the accumulation of `tile` started.
pub open spec fn after_tile(
    depths: StreamDepths,
    tiles: int,
    tile: int,
    state: StreamState,
) -> StreamState {
    StreamState {
        passed: state.passed + 1,
        accumulated: state.accumulated + 1,
        pass_seen: match depths.recycled_at(tile) {
            Some(earlier) => earlier + 1,
            None => state.pass_seen,
        },
        ..after_issue(depths, tiles, tile, state)
    }
}

/// The state at the head of iteration `tile`.
pub open spec fn state_at(depths: StreamDepths, tiles: int, tile: int) -> StreamState
    decreases tile,
{
    if tile <= 0 {
        opened(depths, tiles)
    } else {
        after_tile(depths, tiles, tile - 1, state_at(depths, tiles, tile - 1))
    }
}

/// A wait for round `tile` of a ring of `depth` semaphores ends, and ends for
/// the right round. The awaited work has been started. The round before it on
/// the same semaphore is known complete to the waiter, so the semaphore's one
/// phase bit cannot still show that round's predecessor; and the round after
/// it has not been started, so the bit cannot have moved on.
pub open spec fn wait_is_exact(depth: int, tile: int, seen: int, started: int) -> bool {
    &&& 0 <= tile < started
    &&& tile - depth < seen
    &&& started <= tile + depth
}

/// What iteration `tile` needs of the state it runs in.
pub open spec fn iteration_is_safe(depths: StreamDepths, tiles: int, tile: int) -> bool {
    let state = state_at(depths, tiles, tile);
    let issued = after_issue(depths, tiles, tile, state);
    let done = after_tile(depths, tiles, tile, state);
    // The refill loads the next tile, and the tile it displaces has been
    // scored and accumulated.
    &&& match depths.refill_at(tile, tiles) {
        Some(next) => {
            &&& wait_is_exact(depths.lag as int, tile - 1, state.issuer_seen, state.accumulated)
            &&& next == state.loaded
            &&& next < tiles
            &&& next - depths.stages < issued.issuer_seen
            &&& next - depths.stages < state.scored
        },
        None => true,
    }
    // The scores read a loaded tile and overwrite a segment that every warp
    // has finished reading.
    &&& match depths.score_at(tile, tiles) {
        Some(next) => {
            &&& wait_is_exact(depths.stages as int, next, state.scored, issued.loaded)
            &&& next == state.scored
            &&& next - 2 < state.passed
        },
        None => true,
    }
    // The pass waits for scores that were started before the last barrier, and
    // writes a buffer whose last reader is complete.
    &&& tile < state.scored
    &&& wait_is_exact(2, tile, tile, issued.scored)
    &&& match depths.recycled_at(tile) {
        Some(earlier) => {
            &&& wait_is_exact(depths.lag as int, earlier, state.pass_seen, state.accumulated)
        },
        None => true,
    }
    &&& tile - depths.operands < done.pass_seen
    // The accumulation runs on the tile's own stage: nothing has been loaded
    // over it.
    &&& tile == state.accumulated
    &&& tile < issued.loaded <= tile + depths.stages
}

proof fn lemma_state_at(depths: StreamDepths, tiles: int, tile: int)
    requires
        depths.well_formed(),
        0 <= tile <= tiles,
        1 <= tiles,
    ensures
        ({
            let state = state_at(depths, tiles, tile);
            &&& state.loaded == if tile == 0 {
                depths.opening(tiles)
            } else if depths.stages + tile - 1 < tiles {
                depths.stages + tile - 1
            } else {
                tiles
            }
            &&& state.scored == if tile + 1 < tiles {
                tile + 1
            } else {
                tiles
            }
            &&& state.passed == tile
            &&& state.accumulated == tile
            &&& state.pass_seen == if depths.operands < tile {
                tile - depths.operands
            } else {
                0
            }
            &&& 2 <= tile && tile - 1 + depths.stages - 1 < tiles ==> state.issuer_seen == tile - 1
            &&& tile <= 1 ==> state.issuer_seen == 0
        }),
    decreases tile,
{
    if tile > 0 {
        lemma_state_at(depths, tiles, tile - 1);
    }
}

/// Law: every iteration of a stream of any length is safe, for any ring depths
/// a kernel may be built with.
pub proof fn law_every_iteration_is_safe(depths: StreamDepths, tiles: int, tile: int)
    requires
        depths.well_formed(),
        0 <= tile < tiles,
    ensures
        iteration_is_safe(depths, tiles, tile),
{
    lemma_state_at(depths, tiles, tile);
    lemma_state_at(depths, tiles, tile + 1);
}

/// Law: a finished stream has loaded, scored and accumulated each of its tiles
/// exactly once, and the wait for its last accumulation is exact.
pub proof fn law_stream_covers_every_tile(depths: StreamDepths, tiles: int)
    requires
        depths.well_formed(),
        1 <= tiles,
    ensures
        ({
            let state = state_at(depths, tiles, tiles);
            &&& state.loaded == tiles
            &&& state.scored == tiles
            &&& state.passed == tiles
            &&& state.accumulated == tiles
            &&& wait_is_exact(depths.lag as int, tiles - 1, state.pass_seen, state.accumulated)
        }),
{
    lemma_state_at(depths, tiles, tiles);
}

/// Law: the forward's correction of tile `tile` has the accumulator to itself.
/// The accumulation that its decision says to wait for is the last one started,
/// that of `tile - 1`, and the wait for it is exact.
pub proof fn law_correction_is_exclusive(depths: StreamDepths, tiles: int, tile: int)
    requires
        depths.well_formed(),
        0 < tile < tiles,
    ensures
        ({
            let state = state_at(depths, tiles, tile);
            &&& wait_is_exact(depths.lag as int, tile - 1, state.pass_seen, state.accumulated)
            &&& state.accumulated == tile
            &&& tile <= u32::MAX ==> match correction_of(tile, true) {
                Correction::Rescale { after } => {
                    &&& after + 1 == state.accumulated
                    &&& wait_is_exact(
                        depths.lag as int,
                        after as int,
                        state.pass_seen,
                        state.accumulated,
                    )
                },
                _ => false,
            }
        }),
{
    lemma_state_at(depths, tiles, tile);
}

/// Law: a stream works one tile ahead of itself and no further. Each iteration
/// starts the scores of the tile after it, loads the tile that takes the stage
/// of the one before it once that is accumulated, and lets its pass write the
/// buffer of the tile `operands` before it; nothing is asked for that is not in
/// the stream.
pub proof fn law_an_iteration_works_ahead(depths: StreamDepths, tiles: int, tile: int)
    requires
        depths.well_formed(),
        0 <= tile < tiles,
    ensures
        depths.score_at(tile, tiles) == if tile + 1 < tiles {
            Some(tile + 1)
        } else {
            None
        },
        match depths.refill_at(tile, tiles) {
            Some(next) => 0 < tile && next - depths.stages == tile - 1 && next < tiles,
            None => tile == 0 || tiles <= tile + depths.stages - 1,
        },
        match depths.recycled_at(tile) {
            Some(earlier) => 0 <= earlier && earlier + depths.operands == tile,
            None => tile < depths.operands,
        },
        depths.opening(tiles) <= depths.stages,
        depths.opening(tiles) <= tiles,
        depths.opening(tiles) == depths.stages || depths.opening(tiles) == tiles,
{
}

} // verus!
