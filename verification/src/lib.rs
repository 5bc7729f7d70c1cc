//! Memory-mapping toolkit and the columnar store that rides on the mappings.
//!
//! The crate holds the rules of both layers: how a mapping request is
//! validated, aligned and placed, how a column file is laid out, written and
//! read back, and how tables are queried. Every function carries a contract
//! that is machine-checked.

pub mod advanced;
pub mod columnar;
pub mod error;
pub mod mmap;
pub mod platform;
pub mod utils;

pub use advanced::{HugePageSize, NumaPolicy, PrefetchStrategy};
pub use error::{Error, ErrorKind};
pub use mmap::{KernelCall, MapPlan, MappingCounters, MmapOptions, MmapRaw};
