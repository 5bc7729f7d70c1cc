//! Counters of the mapping operations of a process, and the statistics
//! drawn from them. The counters wrap around like the machine words they
//! are kept in.

use vstd::prelude::*;

verus! {

/// A kind of mapping operation.
#[derive(Debug, Clone, Copy, PartialEq, Eq, Structural)]
pub enum Operation {
    /// A file was mapped.
    MapFile,
    /// Anonymous memory was mapped.
    MapAnon,
    /// A mapping was released.
    Unmap,
    /// A mapping was flushed.
    Flush,
    /// The kernel was given advice.
    Advise,
}

/// The statistics of the mapping operations.
#[derive(Debug, Clone, Copy, PartialEq, Eq, Structural)]
pub struct MemoryStats {
    /// The number of mappings made.
    pub map_count: u64,
    /// The number of mappings released.
    pub unmap_count: u64,
    /// The number of flushes.
    pub flush_count: u64,
    /// The number of advices given.
    pub advise_count: u64,
    /// The bytes mapped.
    pub bytes_mapped: u64,
    /// The bytes released.
    pub bytes_unmapped: u64,
    /// The bytes flushed.
    pub bytes_flushed: u64,
    /// The mean time of a mapping in microseconds.
    pub avg_map_time_us: u64,
    /// The mean time of a release in microseconds.
    pub avg_unmap_time_us: u64,
    /// The mean time of a flush in microseconds.
    pub avg_flush_time_us: u64,
}

/// The running totals that the statistics are drawn from.
#[derive(Debug, Clone, Copy, PartialEq, Eq, Structural)]
pub struct OperationTotals {
    /// The number of mappings made.
    pub map_count: u64,
    /// The number of mappings released.
    pub unmap_count: u64,
    /// The number of flushes.
    pub flush_count: u64,
    /// The number of advices given.
    pub advise_count: u64,
    /// The bytes mapped.
    pub bytes_mapped: u64,
    /// The bytes released.
    pub bytes_unmapped: u64,
    /// The bytes flushed.
    pub bytes_flushed: u64,
    /// The time spent mapping, in microseconds.
    pub total_map_time_us: u64,
    /// The time spent releasing, in microseconds.
    pub total_unmap_time_us: u64,
    /// The time spent flushing, in microseconds.
    pub total_flush_time_us: u64,
}

/// `a + b`, wrapped to 64 bits.
pub open spec fn wrapped(a: u64, b: int) -> u64 {
    ((a + b) % 0x1_0000_0000_0000_0000) as u64
}

/// `a + b`, wrapped to 64 bits.
fn add_wrapping(a: u64, b: u64) -> (r: u64)
    ensures
        r == wrapped(a, b as int),
{
    let room: u64 = u64::MAX - a;
    if b <= room {
        a + b
    } else {
        b - room - 1
    }
}

/// The mean of `count` operations that took `total` together; zero for no
/// operations.
pub open spec fn mean(total: u64, count: u64) -> u64 {
    if count > 0 {
        total / count
    } else {
        0
    }
}

/// The totals of a process that has done nothing.
pub open spec fn no_operations() -> OperationTotals {
    OperationTotals {
        map_count: 0,
        unmap_count: 0,
        flush_count: 0,
        advise_count: 0,
        bytes_mapped: 0,
        bytes_unmapped: 0,
        bytes_flushed: 0,
        total_map_time_us: 0,
        total_unmap_time_us: 0,
        total_flush_time_us: 0,
    }
}

/// The totals after one more operation of `size` bytes that took
/// `duration_us` microseconds: a mapping of either kind, a release and a
/// flush each count one operation, its bytes and its time; an advice
/// counts one operation.
pub open spec fn recorded(
    totals: OperationTotals,
    op: Operation,
    size: usize,
    duration_us: u64,
) -> OperationTotals {
    match op {
        Operation::MapFile | Operation::MapAnon => OperationTotals {
            map_count: wrapped(totals.map_count, 1),
            bytes_mapped: wrapped(totals.bytes_mapped, size as int),
            total_map_time_us: wrapped(totals.total_map_time_us, duration_us as int),
            ..totals
        },
        Operation::Unmap => OperationTotals {
            unmap_count: wrapped(totals.unmap_count, 1),
            bytes_unmapped: wrapped(totals.bytes_unmapped, size as int),
            total_unmap_time_us: wrapped(totals.total_unmap_time_us, duration_us as int),
            ..totals
        },
        Operation::Flush => OperationTotals {
            flush_count: wrapped(totals.flush_count, 1),
            bytes_flushed: wrapped(totals.bytes_flushed, size as int),
            total_flush_time_us: wrapped(totals.total_flush_time_us, duration_us as int),
            ..totals
        },
        Operation::Advise => OperationTotals {
            advise_count: wrapped(totals.advise_count, 1),
            ..totals
        },
    }
}

impl OperationTotals {
    /// The totals of a process that has done nothing.
    pub fn new() -> (r: OperationTotals)
        ensures
            r == no_operations(),
    {
        OperationTotals {
            map_count: 0,
            unmap_count: 0,
            flush_count: 0,
            advise_count: 0,
            bytes_mapped: 0,
            bytes_unmapped: 0,
            bytes_flushed: 0,
            total_map_time_us: 0,
            total_unmap_time_us: 0,
            total_flush_time_us: 0,
        }
    }
}

/// Counts one operation of `size` bytes that took `duration_us`
/// microseconds.
pub fn record_operation(totals: &mut OperationTotals, op: Operation, size: usize, duration_us: u64)
    ensures
        *final(totals) == recorded(*old(totals), op, size, duration_us),
{
    match op {
        Operation::MapFile | Operation::MapAnon => {
            totals.map_count = add_wrapping(totals.map_count, 1);
            totals.bytes_mapped = add_wrapping(totals.bytes_mapped, size as u64);
            totals.total_map_time_us = add_wrapping(totals.total_map_time_us, duration_us);
        },
        Operation::Unmap => {
            totals.unmap_count = add_wrapping(totals.unmap_count, 1);
            totals.bytes_unmapped = add_wrapping(totals.bytes_unmapped, size as u64);
            totals.total_unmap_time_us = add_wrapping(totals.total_unmap_time_us, duration_us);
        },
        Operation::Flush => {
            totals.flush_count = add_wrapping(totals.flush_count, 1);
            totals.bytes_flushed = add_wrapping(totals.bytes_flushed, size as u64);
            totals.total_flush_time_us = add_wrapping(totals.total_flush_time_us, duration_us);
        },
        Operation::Advise => {
            totals.advise_count = add_wrapping(totals.advise_count, 1);
        },
    }
}

/// The statistics of the totals: the counts and bytes as they are, and for
/// mappings, releases and flushes the mean time of one operation.
pub fn get_stats(totals: &OperationTotals) -> (r: MemoryStats)
    ensures
        r == (MemoryStats {
            map_count: totals.map_count,
            unmap_count: totals.unmap_count,
            flush_count: totals.flush_count,
            advise_count: totals.advise_count,
            bytes_mapped: totals.bytes_mapped,
            bytes_unmapped: totals.bytes_unmapped,
            bytes_flushed: totals.bytes_flushed,
            avg_map_time_us: mean(totals.total_map_time_us, totals.map_count),
            avg_unmap_time_us: mean(totals.total_unmap_time_us, totals.unmap_count),
            avg_flush_time_us: mean(totals.total_flush_time_us, totals.flush_count),
        }),
{
    let avg_map_time_us: u64 = if totals.map_count > 0 {
        totals.total_map_time_us / totals.map_count
    } else {
        0
    };
    let avg_unmap_time_us: u64 = if totals.unmap_count > 0 {
        totals.total_unmap_time_us / totals.unmap_count
    } else {
        0
    };
    let avg_flush_time_us: u64 = if totals.flush_count > 0 {
        totals.total_flush_time_us / totals.flush_count
    } else {
        0
    };
    MemoryStats {
        map_count: totals.map_count,
        unmap_count: totals.unmap_count,
        flush_count: totals.flush_count,
        advise_count: totals.advise_count,
        bytes_mapped: totals.bytes_mapped,
        bytes_unmapped: totals.bytes_unmapped,
        bytes_flushed: totals.bytes_flushed,
        avg_map_time_us,
        avg_unmap_time_us,
        avg_flush_time_us,
    }
}

/// Sets all totals back to zero.
pub fn reset_stats(totals: &mut OperationTotals)
    ensures
        *final(totals) == no_operations(),
{
    *totals = OperationTotals::new();
}

} // verus!
