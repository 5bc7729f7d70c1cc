//! Advanced mapping features: huge pages, NUMA placement and prefetching.

pub mod huge_pages;
pub mod numa;
pub mod prefetch;

pub use prefetch::apply_strategy;

use crate::platform::Platform;
use vstd::prelude::*;

verus! {

/// The size of a huge page.
#[derive(Debug, Clone, Copy, PartialEq, Eq, Structural)]
pub enum HugePageSize {
    /// 2 MiB pages.
    TwoMB,
    /// 1 GiB pages.
    OneGB,
}

/// Where the pages of a mapping are to be placed among the NUMA nodes.
#[derive(Debug, Clone, Copy)]
pub enum NumaPolicy {
    /// Spread over the first `count` of the given nodes.
    Interleave([u32; 4], usize),
    /// On the given node only.
    Bind(u32),
    /// On the given node where possible.
    Preferred(u32),
}

/// How a fresh mapping is prefetched.
#[derive(Debug, Clone, Copy, PartialEq, Eq, Structural)]
pub enum PrefetchStrategy {
    /// No prefetching.
    Off,
    /// The first pages are touched.
    Sequential,
    /// Access is random: nothing is touched.
    Random,
    /// The given number of bytes is touched.
    Custom(usize),
}

impl HugePageSize {
    /// The number of bytes of a page of the size.
    pub fn bytes(&self) -> (r: u64)
        ensures
            r == match *self {
                HugePageSize::TwoMB => 0x20_0000u64,
                HugePageSize::OneGB => 0x4000_0000u64,
            },
    {
        match self {
            HugePageSize::TwoMB => 0x20_0000,
            HugePageSize::OneGB => 0x4000_0000,
        }
    }
}

/// Whether the kernel has huge pages, as its memory report says.
pub fn has_huge_page_support(platform: Platform, meminfo: &[u8]) -> (r: bool)
    ensures
        r == (platform is Linux && huge_pages::at_least(
            huge_pages::labelled_number(meminfo@, huge_pages::total_label()),
            1,
        )),
{
    huge_pages::is_supported(platform, meminfo)
}

/// Whether the system has NUMA nodes, given whether the directory of node
/// 0 is there.
pub fn has_numa_support(platform: Platform, node0_present: bool) -> (r: bool)
    ensures
        r == (platform is Linux && node0_present),
{
    numa::is_supported(platform, node0_present)
}

} // verus!
