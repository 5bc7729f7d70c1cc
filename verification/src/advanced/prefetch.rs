//! Prefetching a fresh mapping: how much of it is touched.

use crate::advanced::PrefetchStrategy;
use vstd::prelude::*;

verus! {

/// The distance in bytes between two touches.
pub const PREFETCH_STRIDE: usize = 64;

/// The number of pages that sequential prefetching touches.
pub const SEQUENTIAL_PAGES: usize = 4;

/// The number of leading bytes of a mapping of `len` bytes that a strategy
/// touches: none without prefetching and for random access, the first four
/// pages for sequential access, and the given lookahead for a custom
/// strategy, in each case no more than the mapping has.
pub open spec fn prefetch_span(len: nat, strategy: PrefetchStrategy, page_size: nat) -> nat {
    match strategy {
        PrefetchStrategy::Off => 0,
        PrefetchStrategy::Random => 0,
        PrefetchStrategy::Sequential => if len <= 4 * page_size {
            len
        } else {
            4 * page_size
        },
        PrefetchStrategy::Custom(lookahead) => if len <= lookahead {
            len
        } else {
            lookahead as nat
        },
    }
}

/// The number of leading bytes of a mapping of `len` bytes to touch, one
/// touch every `PREFETCH_STRIDE` bytes.
pub fn apply_strategy(len: usize, strategy: PrefetchStrategy, page_size: usize) -> (r: usize)
    ensures
        r == prefetch_span(len as nat, strategy, page_size as nat),
        r <= len,
{
    match strategy {
        PrefetchStrategy::Off => 0,
        PrefetchStrategy::Random => 0,
        PrefetchStrategy::Sequential => {
            match page_size.checked_mul(SEQUENTIAL_PAGES) {
                Some(span) => if len <= span {
                    len
                } else {
                    span
                },
                None => len,
            }
        },
        PrefetchStrategy::Custom(lookahead) => {
            if len <= lookahead {
                len
            } else {
                lookahead
            }
        },
    }
}

/// The number of touches that cover a span: one every `PREFETCH_STRIDE`
/// bytes, from the first byte.
pub fn touch_count(span: usize) -> (r: usize)
    ensures
        r == (span + 63) / 64,
{
    span / PREFETCH_STRIDE + if span % PREFETCH_STRIDE == 0 {
        0
    } else {
        1
    }
}

} // verus!
