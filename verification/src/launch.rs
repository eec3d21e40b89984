//! Launch shapes.

use crate::arith::{ceil_div, lemma_ceil_div};
use vstd::prelude::*;

verus! {

/// Threads of a block of an elementwise kernel.
pub const ELEMENTWISE_BLOCK: u32 = 256;

/// Grid, block and dynamic shared memory of one kernel launch, each dimension
/// as `(x, y, z)`.
#[derive(Clone, Copy, PartialEq, Eq, Debug)]
pub struct LaunchConfig {
    pub grid_dim: (u32, u32, u32),
    pub block_dim: (u32, u32, u32),
    pub shared_mem_bytes: u32,
}

impl LaunchConfig {
    /// Threads the launch starts.
    pub open spec fn threads(self) -> int {
        self.grid_dim.0 * self.grid_dim.1 * self.grid_dim.2 * (self.block_dim.0 * self.block_dim.1
            * self.block_dim.2)
    }

    /// One thread per element, in blocks of 256.
    pub open spec fn elementwise(n: int) -> LaunchConfig {
        LaunchConfig {
            grid_dim: (ceil_div(n, ELEMENTWISE_BLOCK as int) as u32, 1, 1),
            block_dim: (ELEMENTWISE_BLOCK, 1, 1),
            shared_mem_bytes: 0,
        }
    }

    /// One-dimensional launch with a thread for each of `n` elements.
    pub fn for_num_elems(n: u32) -> (config: LaunchConfig)
        ensures
            config == LaunchConfig::elementwise(n as int),
            config.grid_dim.0 == ceil_div(n as int, 256),
            256 * (config.grid_dim.0 - 1) < n <= 256 * config.grid_dim.0 || n
                == config.grid_dim.0 == 0,
            config.grid_dim.1 == 1 && config.grid_dim.2 == 1,
            config.block_dim == (256u32, 1u32, 1u32),
            config.shared_mem_bytes == 0,
    {
        proof {
            lemma_ceil_div(n as int, 256);
        }
        let whole: u32 = n / ELEMENTWISE_BLOCK;
        let blocks: u32 = if n % ELEMENTWISE_BLOCK == 0 {
            whole
        } else {
            whole + 1
        };
        LaunchConfig {
            grid_dim: (blocks, 1, 1),
            block_dim: (ELEMENTWISE_BLOCK, 1, 1),
            shared_mem_bytes: 0,
        }
    }
}

/// Law: an elementwise launch has a thread for every element and less than one
/// block to spare.
pub proof fn law_elementwise_launch_covers(n: u32)
    ensures
        n <= LaunchConfig::elementwise(n as int).threads() < n + ELEMENTWISE_BLOCK,
{
    lemma_ceil_div(n as int, 256);
    let config = LaunchConfig::elementwise(n as int);
    let blocks = ceil_div(n as int, 256);
    assert(config.threads() == 256 * blocks) by (nonlinear_arith)
        requires
            config.threads() == config.grid_dim.0 * config.grid_dim.1 * config.grid_dim.2 * (
            config.block_dim.0 * config.block_dim.1 * config.block_dim.2),
            config.grid_dim.0 == blocks,
            config.grid_dim.1 == 1,
            config.grid_dim.2 == 1,
            config.block_dim.0 == 256,
            config.block_dim.1 == 1,
            config.block_dim.2 == 1,
    ;
}

} // verus!
