//! Filling a target with random bytes.

use vstd::prelude::*;

use crate::error::HazmatError;
use crate::io::{devices_count_whole_blocks, IoDevice};

verus! {

/// A run of blocks to fill one after the other, from the descriptor's position
/// on.
#[derive(Clone, Copy, Debug, PartialEq, Eq, Structural)]
pub struct BlockWalk {
    /// Number of blocks.
    pub limit: u64,
    /// Bytes in a block.
    pub blk_size: usize,
    /// Blocks filled so far.
    pub index: u64,
}

impl BlockWalk {
    /// Every block has a position that can be counted, and no more blocks are
    /// filled than there are.
    pub open spec fn wf(self) -> bool {
        &&& self.index <= self.limit
        &&& self.limit > 0 ==> (self.limit - 1) * self.blk_size <= u64::MAX
    }

    /// Bytes before the next block.
    pub open spec fn position(self) -> int {
        self.index * self.blk_size
    }

    /// The walk after `n` more blocks.
    pub open spec fn advanced(self, n: int) -> BlockWalk {
        BlockWalk { index: (self.index + n) as u64, ..self }
    }

    /// The position of the next block to fill, `None` when all are filled. The
    /// block is to be filled with fresh random bytes and written in full.
    pub fn next_position(&self) -> (position: Option<u64>)
        requires
            self.wf(),
        ensures
            match position {
                Some(position) => self.index < self.limit && position == self.position(),
                None => self.index == self.limit,
            },
    {
        if self.index == self.limit {
            return None;
        }
        proof {
            let (i, n, b) = (self.index as int, self.limit - 1, self.blk_size as int);
            assert(i * b <= n * b) by (nonlinear_arith)
                requires
                    i <= n,
                    0 <= b,
            ;
        }
        Some(self.index * self.blk_size as u64)
    }

    /// Takes note that the next block was written.
    pub fn complete(&mut self)
        requires
            old(self).wf(),
            old(self).index < old(self).limit,
        ensures
            final(self).wf(),
            *final(self) == old(self).advanced(1),
    {
        self.index = self.index + 1;
    }
}

/// Whether the progress shown is to be brought up to date before a further
/// block: at the first block, and when more than a second went by since it was
/// shown. `elapsed` is that time in seconds and nanoseconds, or `None` where
/// the clock was set back.
pub fn progress_due(shown: bool, elapsed: Option<(u64, u32)>) -> (due: bool)
    ensures
        due == (!shown || match elapsed {
            Some((secs, nanos)) => secs * 1_000_000_000 + nanos > 1_000_000_000,
            None => false,
        }),
{
    if !shown {
        return true;
    }
    match elapsed {
        Some((secs, nanos)) => secs as u128 * 1_000_000_000 + nanos as u128 > 1_000_000_000,
        None => false,
    }
}

/// How a target is filled: from its start, first blocks, then single bytes; the
/// target is to be flushed after them.
#[derive(Clone, Copy, Debug, PartialEq, Eq, Structural)]
pub struct SanitizePlan {
    /// Bytes in the blocks, for the progress to be shown.
    pub progress_total: u64,
    /// The blocks to fill, where there are any.
    pub walk: Option<BlockWalk>,
    /// Random bytes to write behind the blocks.
    pub remainder: usize,
}

/// How a device is filled.
pub open spec fn sanitize_plan(d: IoDevice) -> SanitizePlan {
    let blocks = if d.is_blk_device {
        d.usable_blk_count
    } else {
        d.blk_count
    };
    SanitizePlan {
        progress_total: (blocks * d.blk_size) as u64,
        walk: if d.blk_size <= d.usable_size {
            Some(BlockWalk { limit: blocks, blk_size: d.blk_size as usize, index: 0 })
        } else {
            None
        },
        remainder: if d.is_blk_device {
            0
        } else {
            (d.total_size - d.usable_size) as usize
        },
    }
}

impl SanitizePlan {
    /// Bytes that the blocks take.
    pub open spec fn block_bytes(self) -> int {
        match self.walk {
            Some(walk) => walk.limit * walk.blk_size,
            None => 0,
        }
    }
}

/// Filling a target with random bytes.
pub trait SanitizeDisk {
    /// The target can be planned for.
    spec fn sanitizable(&self) -> bool;

    /// The plan, or why there is none.
    spec fn planned(&self) -> Result<SanitizePlan, HazmatError>;

    /// Streams random data over blocks of the target.
    fn block_walk(&self, limit: u64, blk_size: usize) -> (walk: BlockWalk)
        requires
            limit > 0 ==> (limit - 1) * blk_size <= u64::MAX,
        ensures
            walk.wf(),
            walk == (BlockWalk { limit, blk_size, index: 0 }),
    ;

    /// Plans to fill the whole target with random data.
    fn sanitize_disk(&self) -> (result: Result<SanitizePlan, HazmatError>)
        requires
            self.sanitizable(),
        ensures
            result == self.planned(),
    ;
}

/// The blocks of a device take its usable bytes.
proof fn lemma_block_bytes(d: IoDevice)
    requires
        d.wf(),
    ensures
        d.usable_blk_count == d.blk_count,
        d.blk_count * d.blk_size == d.usable_size,
        d.usable_size <= d.total_size,
        d.total_size - d.usable_size < d.blk_size,
        d.blk_count > 0 ==> (d.blk_count - 1) * d.blk_size <= d.usable_size,
        d.blk_size > d.usable_size ==> d.blk_count == 0,
{
    let (n, b) = (d.total_size as int, d.blk_size as int);
    vstd::arithmetic::div_mod::lemma_fundamental_div_mod(n, b);
    vstd::arithmetic::div_mod::lemma_mod_bound(n, b);
    vstd::arithmetic::div_mod::lemma_mod_decreases(d.total_size as nat, d.blk_size as nat);
    vstd::arithmetic::mul::lemma_mul_is_commutative(n / b, b);
    let q = n / b;
    assert(q > 0 ==> (q - 1) * b <= q * b && q * b >= b) by (nonlinear_arith)
        requires
            b >= 0,
    ;
}

impl SanitizeDisk for IoDevice {
    open spec fn sanitizable(&self) -> bool {
        self.wf()
    }

    open spec fn planned(&self) -> Result<SanitizePlan, HazmatError> {
        if self.blk_size > usize::MAX {
            Err(HazmatError::BlockSizeTooLarge { blk_size: self.blk_size })
        } else {
            Ok(sanitize_plan(*self))
        }
    }

    fn block_walk(&self, limit: u64, blk_size: usize) -> (walk: BlockWalk) {
        BlockWalk { limit, blk_size, index: 0 }
    }

    fn sanitize_disk(&self) -> (result: Result<SanitizePlan, HazmatError>) {
        let process_blk_count: u64 = if self.is_blk_device {
            self.usable_blk_count
        } else {
            self.blk_count
        };
        if self.blk_size > usize::MAX as u64 {
            return Err(HazmatError::BlockSizeTooLarge { blk_size: self.blk_size });
        }
        proof {
            lemma_block_bytes(*self);
        }
        let blk_size: usize = self.blk_size as usize;
        let progress_total: u64 = process_blk_count * blk_size as u64;
        let walk: Option<BlockWalk> = if blk_size as u64 <= self.usable_size {
            Some(self.block_walk(process_blk_count, blk_size))
        } else {
            None
        };
        let remainder: usize = if self.is_blk_device {
            0
        } else {
            (self.total_size - self.usable_size) as usize
        };
        Ok(SanitizePlan { progress_total, walk, remainder })
    }
}

/// The blocks and the bytes behind them take the whole of a regular file, and
/// the usable bytes of a block device; the progress counts the bytes of the
/// blocks.
pub proof fn sanitizing_covers_the_target(d: IoDevice)
    requires
        d.wf(),
        d.blk_size <= usize::MAX,
    ensures
        ({
            let plan = sanitize_plan(d);
            &&& plan.walk matches Some(walk) ==> walk.wf()
            &&& plan.progress_total == plan.block_bytes()
            &&& plan.block_bytes() + plan.remainder == if d.is_blk_device {
                d.usable_size
            } else {
                d.total_size
            }
        }),
{
    lemma_block_bytes(d);
}

/// The blocks of a walk follow one another without gap or overlap.
pub proof fn walked_blocks_are_adjacent(walk: BlockWalk, n: int)
    requires
        walk.index == 0,
        walk.wf(),
        0 <= n < walk.limit,
    ensures
        walk.advanced(n).wf(),
        walk.advanced(0).position() == 0,
        walk.advanced(n + 1).position() == walk.advanced(n).position() + walk.blk_size,
        walk.advanced(walk.limit as int).position() == walk.limit * walk.blk_size,
{
    let b = walk.blk_size as int;
    assert((n + 1) * b == n * b + b && 0 * b == 0) by (nonlinear_arith);
}

/// The blocks filled are those of the device, from its start on: as many as it
/// holds whole, each as long as a block of the device, and none where it holds
/// none. Behind them fewer bytes than a block are left.
pub proof fn sanitizing_fills_the_blocks_of_the_device(d: IoDevice)
    requires
        d.wf(),
        d.blk_size <= usize::MAX,
    ensures
        d.planned() matches Ok(plan) && {
            &&& plan.walk is None <==> d.total_size < d.blk_size
            &&& plan.walk matches Some(walk) ==> {
                &&& walk.index == 0
                &&& walk.blk_size == d.blk_size
                &&& walk.limit * d.blk_size <= d.total_size < (walk.limit + 1) * d.blk_size
            }
            &&& plan.remainder < d.blk_size
            &&& d.is_blk_device ==> plan.remainder == 0
            &&& plan.progress_total + plan.remainder == if d.is_blk_device {
                d.usable_size
            } else {
                d.total_size
            }
        },
{
    lemma_block_bytes(d);
    devices_count_whole_blocks(d);
    sanitizing_covers_the_target(d);
    let (q, b, n) = (d.blk_count as int, d.blk_size as int, d.total_size as int);
    assert(q >= 1 <==> b <= n) by (nonlinear_arith)
        requires
            q * b <= n < (q + 1) * b,
            b > 0,
            q >= 0,
    ;
    assert(b <= q * b <==> q >= 1) by (nonlinear_arith)
        requires
            b > 0,
            q >= 0,
    ;
}

} // verus!
