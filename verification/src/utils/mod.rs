//! Utilities shared by the mapping core and the columnar store.

pub mod alignment;
pub mod metrics;
pub mod text;

pub use alignment::{align_down, align_up, cache_line_size, get_alignment, is_aligned};
pub use metrics::{get_stats, record_operation, reset_stats, MemoryStats, Operation};
