//! What the measurement harness computes from what it measures: latency ranks,
//! shares of work, and heap accounting.

use vstd::prelude::*;

verus! {

/// What one allocator call adds to the heap counters.
#[derive(Debug, Clone, Copy, PartialEq, Eq)]
pub struct HeapChange {
    /// Bytes handed out.
    pub total_bytes: u64,
    /// Allocation events.
    pub total_blocks: u64,
    /// Bytes that came into use; negative when they were given back.
    pub current_bytes: i64,
    /// Blocks that came into use; negative when they were given back.
    pub current_blocks: i64,
}

/// The heap counters at one moment.
#[derive(Debug, Clone, Copy, PartialEq, Eq)]
pub struct Snapshot {
    /// All bytes handed out so far.
    pub total_bytes: u64,
    /// All allocation events so far.
    pub total_blocks: u64,
    /// Bytes in use.
    pub current_bytes: i64,
    /// Blocks in use.
    pub current_blocks: u64,
}

/// `size` fits the signed counter of bytes in use.
pub open spec fn countable(size: u64) -> bool {
    size <= i64::MAX
}

/// A successful allocation of `size` bytes.
pub open spec fn allocated(size: u64) -> HeapChange {
    HeapChange {
        total_bytes: size,
        total_blocks: 1,
        current_bytes: size as i64,
        current_blocks: 1,
    }
}

/// A deallocation of `size` bytes.
pub open spec fn deallocated(size: u64) -> HeapChange {
    HeapChange {
        total_bytes: 0,
        total_blocks: 0,
        current_bytes: (-(size as int)) as i64,
        current_blocks: (-1int) as i64,
    }
}

/// A successful reallocation from `old` to `new` bytes: one more event, the new
/// size handed out, and the difference in use.
pub open spec fn reallocated(old: u64, new: u64) -> HeapChange {
    HeapChange {
        total_bytes: new,
        total_blocks: 1,
        current_bytes: (new - old) as i64,
        current_blocks: 0,
    }
}

/// Accounts for a successful allocation, unless the size is not countable.
pub fn allocation(size: u64) -> (change: Option<HeapChange>)
    ensures
        change == if countable(size) {
            Some(allocated(size))
        } else {
            None
        },
{
    if size > i64::MAX as u64 {
        return None;
    }
    Some(
        HeapChange {
            total_bytes: size,
            total_blocks: 1,
            current_bytes: size as i64,
            current_blocks: 1,
        },
    )
}

/// Accounts for a deallocation, unless the size is not countable.
pub fn deallocation(size: u64) -> (change: Option<HeapChange>)
    ensures
        change == if countable(size) {
            Some(deallocated(size))
        } else {
            None
        },
{
    if size > i64::MAX as u64 {
        return None;
    }
    Some(
        HeapChange {
            total_bytes: 0,
            total_blocks: 0,
            current_bytes: -(size as i64),
            current_blocks: -1,
        },
    )
}

/// Accounts for a successful reallocation, unless a size is not countable.
pub fn reallocation(old: u64, new: u64) -> (change: Option<HeapChange>)
    ensures
        change == if countable(old) && countable(new) {
            Some(reallocated(old, new))
        } else {
            None
        },
{
    if old > i64::MAX as u64 || new > i64::MAX as u64 {
        return None;
    }
    Some(
        HeapChange {
            total_bytes: new,
            total_blocks: 1,
            current_bytes: new as i64 - old as i64,
            current_blocks: 0,
        },
    )
}

/// Giving back what was allocated leaves nothing in use.
pub proof fn law_deallocation_undoes_allocation(size: u64)
    requires
        countable(size),
    ensures
        allocated(size).current_bytes + deallocated(size).current_bytes == 0,
        allocated(size).current_blocks + deallocated(size).current_blocks == 0,
{
}

/// What is in use after a reallocation is what is in use after giving the old
/// block back and allocating the new one.
pub proof fn law_reallocation_replaces_a_block(old_size: u64, new_size: u64)
    requires
        countable(old_size),
        countable(new_size),
    ensures
        reallocated(old_size, new_size).current_bytes == deallocated(old_size).current_bytes
            + allocated(new_size).current_bytes,
        reallocated(old_size, new_size).current_blocks == deallocated(old_size).current_blocks
            + allocated(new_size).current_blocks,
        reallocated(old_size, new_size).total_bytes == allocated(new_size).total_bytes,
        reallocated(old_size, new_size).total_blocks == allocated(new_size).total_blocks,
{
}

/// What the heap accounting reports.
#[derive(Debug, Clone, Copy, PartialEq, Eq)]
pub struct HeapReport {
    /// Bytes allocated per operation.
    pub bytes_per_op: u64,
    /// Allocation events per operation.
    pub blocks_per_op: u64,
    /// Bytes in use per live subject with its observation.
    pub retained_bytes: u64,
    /// Blocks in use per live subject with its observation.
    pub retained_blocks: u64,
    /// Bytes still in use after everything has been dropped, beyond those in
    /// use at the start.
    pub residue: i64,
}

/// The moments at which the heap accounting reads the counters.
#[derive(Debug, Clone, Copy, PartialEq, Eq)]
pub struct HeapReadings {
    /// Before anything.
    pub start: Snapshot,
    /// Before the operations.
    pub before: Snapshot,
    /// After the operations.
    pub after: Snapshot,
    /// Before the live pairs.
    pub baseline: Snapshot,
    /// With the live pairs.
    pub live: Snapshot,
    /// With everything dropped.
    pub end: Snapshot,
}

impl HeapReadings {
    /// The readings can be accounted for: the counters that only rise have
    /// risen, the live pairs use heap, and the differences of bytes in use can
    /// be counted.
    pub open spec fn accountable(self) -> bool {
        &&& self.before.total_bytes <= self.after.total_bytes
        &&& self.before.total_blocks <= self.after.total_blocks
        &&& 0 <= self.live.current_bytes - self.baseline.current_bytes <= i64::MAX
        &&& self.baseline.current_blocks <= self.live.current_blocks
        &&& i64::MIN <= self.end.current_bytes - self.start.current_bytes <= i64::MAX
    }
}

/// Reports on `operations` operations and `pairs` live pairs, if the readings
/// can be accounted for.
pub fn heap_report(readings: &HeapReadings, operations: u64, pairs: u64) -> (report: Option<
    HeapReport,
>)
    requires
        operations > 0,
        pairs > 0,
    ensures
        report is Some <==> readings.accountable(),
        report matches Some(r) ==> {
            &&& r.bytes_per_op == (readings.after.total_bytes - readings.before.total_bytes)
                / operations as int
            &&& r.blocks_per_op == (readings.after.total_blocks - readings.before.total_blocks)
                / operations as int
            &&& r.retained_bytes == (readings.live.current_bytes - readings.baseline.current_bytes)
                / pairs as int
            &&& r.retained_blocks == (readings.live.current_blocks
                - readings.baseline.current_blocks) / pairs as int
            &&& r.residue == if readings.end.current_bytes < readings.start.current_bytes {
                0
            } else {
                readings.end.current_bytes - readings.start.current_bytes
            }
        },
{
    let bytes: u64 = readings.after.total_bytes.checked_sub(readings.before.total_bytes)?;
    let blocks: u64 = readings.after.total_blocks.checked_sub(readings.before.total_blocks)?;
    let grown: i64 = readings.live.current_bytes.checked_sub(readings.baseline.current_bytes)?;
    if grown < 0 {
        return None;
    }
    let kept: u64 = readings.live.current_blocks.checked_sub(readings.baseline.current_blocks)?;
    let left: i64 = readings.end.current_bytes.checked_sub(readings.start.current_bytes)?;
    Some(
        HeapReport {
            bytes_per_op: bytes / operations,
            blocks_per_op: blocks / operations,
            retained_bytes: grown as u64 / pairs,
            retained_blocks: kept / pairs,
            residue: if left < 0 {
                0
            } else {
                left
            },
        },
    )
}

/// The median and the 99th percentile of latencies in ascending order, if there
/// are enough of them to tell: one percent of them, rounded down, is at or
/// after the second.
pub fn latency_ranks(sorted: &Vec<u128>) -> (ranks: Option<(u128, u128)>)
    ensures
        ranks == if sorted@.len() < 100 {
            None
        } else {
            Some(
                (
                    sorted@[sorted@.len() as int / 2],
                    sorted@[sorted@.len() as int - sorted@.len() as int / 100],
                ),
            )
        },
{
    let count: usize = sorted.len();
    if count < 100 {
        return None;
    }
    Some((sorted[count / 2], sorted[count - count / 100]))
}

/// The keys of one worker: the worker's equal share of `total`, starting where
/// the shares of the workers before it end. The remainder of the division is
/// nobody's.
pub fn worker_keys(total: u64, workers: u64, worker: u64) -> (keys: (u64, u64))
    requires
        worker < workers,
    ensures
        keys.0 == worker * (total / workers),
        keys.1 == (worker + 1) * (total / workers),
        keys.0 <= keys.1 <= total,
{
    let share: u64 = total / workers;
    proof {
        assert(worker * share + share == (worker + 1) * share) by (nonlinear_arith);
        assert((worker + 1) * share <= workers * share) by (nonlinear_arith)
            requires
                worker < workers,
        ;
        vstd::arithmetic::div_mod::lemma_fundamental_div_mod(total as int, workers as int);
        vstd::arithmetic::mul::lemma_mul_is_commutative(workers as int, share as int);
        assert(workers * share <= total);
        assert(worker * share <= (worker + 1) * share) by (nonlinear_arith);
    }
    let first: u64 = worker * share;
    (first, first + share)
}

/// No two workers have a key in common.
pub proof fn law_workers_share_no_key(total: u64, workers: u64, worker: u64, other: u64, key: int)
    requires
        worker < other < workers,
        worker * (total / workers) <= key < (worker + 1) * (total / workers),
    ensures
        !(other * (total / workers) <= key < (other + 1) * (total / workers)),
{
    let share = total / workers;
    assert((worker + 1) * share <= other * share) by (nonlinear_arith)
        requires
            worker < other,
            share >= 0,
    ;
}

} // verus!
