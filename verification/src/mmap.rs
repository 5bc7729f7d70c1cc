//! The options of a mapping, and what they ask of the operating system.

use crate::advanced::prefetch::{apply_strategy, prefetch_span};
use crate::advanced::{HugePageSize, NumaPolicy, PrefetchStrategy};
use crate::error::{error_kind, Error, ErrorKind};
use crate::platform::{
    advise, flush, map_anon, map_file, mapped_len, request_error, request_follows, trimmed_to,
    Advice, Backing, KernelAdvice, MapRequest, Placement, Platform, Protection,
};
use crate::utils::alignment::align_down_spec;
use vstd::prelude::*;

verus! {

/// The options of a mapping.
#[derive(Debug, Clone, Copy)]
pub struct MmapOptions {
    /// The offset into the file at which the mapping starts.
    pub offset: u64,
    /// The length of the mapping; the whole file where none is set.
    pub len: Option<usize>,
    /// Whether the pages can be read.
    pub readable: bool,
    /// Whether the pages can be written.
    pub writable: bool,
    /// Whether the pages can be executed.
    pub executable: bool,
    /// The huge pages to back the mapping with.
    pub huge_pages: Option<HugePageSize>,
    /// The NUMA policy of the mapping.
    pub numa_policy: Option<NumaPolicy>,
    /// How the fresh mapping is prefetched.
    pub prefetch: Option<PrefetchStrategy>,
    /// Whether the mapping serves as a stack.
    pub stack: bool,
    /// Whether changes stay private to the mapping.
    pub copy_on_write: bool,
    /// Whether the pages are faulted in when the mapping is made.
    pub populate: bool,
    /// The alignment of the first byte of the mapping.
    pub alignment: Option<usize>,
}

/// A request together with the prefetching that follows the mapping.
#[derive(Debug, Clone, Copy)]
pub struct MapPlan {
    /// What the kernel is asked for.
    pub request: MapRequest,
    /// The number of leading bytes to touch once the mapping is made.
    pub prefetch_bytes: usize,
}

impl Default for MmapOptions {
    /// The options that every mapping starts from.
    fn default() -> (r: MmapOptions)
        ensures
            r == (MmapOptions {
                offset: 0,
                len: None,
                readable: true,
                writable: false,
                executable: false,
                huge_pages: None,
                numa_policy: None,
                prefetch: None,
                stack: false,
                copy_on_write: false,
                populate: false,
                alignment: None,
            }),
    {
        MmapOptions::new()
    }
}

impl MmapOptions {
    /// The number of leading bytes of a mapping of `len` bytes that the
    /// options have touched.
    pub open spec fn prefetched(&self, len: usize, page_size: usize) -> nat {
        match self.prefetch {
            Some(strategy) => prefetch_span(len as nat, strategy, page_size as nat),
            None => 0,
        }
    }

    /// The options that every mapping starts from: the whole file from its
    /// first byte, readable, shared, and nothing else.
    pub fn new() -> (r: MmapOptions)
        ensures
            r == (MmapOptions {
                offset: 0,
                len: None,
                readable: true,
                writable: false,
                executable: false,
                huge_pages: None,
                numa_policy: None,
                prefetch: None,
                stack: false,
                copy_on_write: false,
                populate: false,
                alignment: None,
            }),
    {
        MmapOptions {
            offset: 0,
            len: None,
            readable: true,
            writable: false,
            executable: false,
            huge_pages: None,
            numa_policy: None,
            prefetch: None,
            stack: false,
            copy_on_write: false,
            populate: false,
            alignment: None,
        }
    }

    /// The options with the mapping starting at `offset` in the file.
    pub fn offset(self, offset: u64) -> (r: MmapOptions)
        ensures
            r == (MmapOptions { offset, ..self }),
    {
        let mut options = self;
        options.offset = offset;
        options
    }

    /// The options with a mapping of `len` bytes.
    pub fn len(self, len: usize) -> (r: MmapOptions)
        ensures
            r == (MmapOptions { len: Some(len), ..self }),
    {
        let mut options = self;
        options.len = Some(len);
        options
    }

    /// The options with the pages readable or not.
    pub fn read(self, readable: bool) -> (r: MmapOptions)
        ensures
            r == (MmapOptions { readable, ..self }),
    {
        let mut options = self;
        options.readable = readable;
        options
    }

    /// The options with the pages writable or not.
    pub fn write(self, writable: bool) -> (r: MmapOptions)
        ensures
            r == (MmapOptions { writable, ..self }),
    {
        let mut options = self;
        options.writable = writable;
        options
    }

    /// The options with the pages executable or not.
    pub fn exec(self, executable: bool) -> (r: MmapOptions)
        ensures
            r == (MmapOptions { executable, ..self }),
    {
        let mut options = self;
        options.executable = executable;
        options
    }

    /// The options with huge pages of the given size.
    pub fn huge_pages(self, size: HugePageSize) -> (r: MmapOptions)
        ensures
            r == (MmapOptions { huge_pages: Some(size), ..self }),
    {
        let mut options = self;
        options.huge_pages = Some(size);
        options
    }

    /// The options with the given NUMA policy.
    pub fn numa_policy(self, policy: NumaPolicy) -> (r: MmapOptions)
        ensures
            r == (MmapOptions { numa_policy: Some(policy), ..self }),
    {
        let mut options = self;
        options.numa_policy = Some(policy);
        options
    }

    /// The options with the given prefetching.
    pub fn prefetch(self, strategy: PrefetchStrategy) -> (r: MmapOptions)
        ensures
            r == (MmapOptions { prefetch: Some(strategy), ..self }),
    {
        let mut options = self;
        options.prefetch = Some(strategy);
        options
    }

    /// The options with the mapping serving as a stack or not.
    pub fn stack(self, stack: bool) -> (r: MmapOptions)
        ensures
            r == (MmapOptions { stack, ..self }),
    {
        let mut options = self;
        options.stack = stack;
        options
    }

    /// The options with changes private to the mapping or not.
    pub fn copy_on_write(self, cow: bool) -> (r: MmapOptions)
        ensures
            r == (MmapOptions { copy_on_write: cow, ..self }),
    {
        let mut options = self;
        options.copy_on_write = cow;
        options
    }

    /// The options with the pages faulted in at once or not.
    pub fn populate(self, populate: bool) -> (r: MmapOptions)
        ensures
            r == (MmapOptions { populate, ..self }),
    {
        let mut options = self;
        options.populate = populate;
        options
    }

    /// The options with the first byte of the mapping aligned to `alignment`.
    pub fn alignment(self, alignment: usize) -> (r: MmapOptions)
        ensures
            r == (MmapOptions { alignment: Some(alignment), ..self }),
    {
        let mut options = self;
        options.alignment = Some(alignment);
        options
    }

    /// The length of a mapping of a file of `file_len` bytes: the length
    /// that was set, else the length of the file; `None` where the
    /// length of the file does not fit the address space.
    pub open spec fn file_mapping_len(&self, file_len: u64) -> Option<usize> {
        match self.len {
            Some(len) => Some(len),
            None => if file_len <= usize::MAX {
                Some(file_len as usize)
            } else {
                None
            },
        }
    }

    /// Why a mapping of a file of `file_len` bytes is refused, if it is.
    pub open spec fn file_mapping_error(&self, platform: Platform, file_len: u64, page_size: usize) -> Option<
        ErrorKind,
    > {
        match self.file_mapping_len(file_len) {
            Some(len) => request_error(platform, self.offset, len, self.alignment, page_size),
            None => Some(ErrorKind::SizeExceedsSystemLimit),
        }
    }

    /// Whether `plan` is the plan for a mapping of a file of `file_len`
    /// bytes with these options, the pages writable or not as given: the
    /// request follows the options, its window starts at the multiple of
    /// the page size at or below the offset, and the first byte handed out
    /// is the byte at the offset.
    pub open spec fn plans_file(
        &self,
        plan: MapPlan,
        platform: Platform,
        file_len: u64,
        page_size: usize,
        writable: bool,
    ) -> bool {
        &&& plan.request.wf()
        &&& request_follows(
            plan.request,
            platform,
            Protection { read: self.readable, write: writable, execute: self.executable },
            if self.copy_on_write {
                Backing::PrivateFile
            } else {
                Backing::SharedFile
            },
            self.huge_pages,
            self.numa_policy,
            self.stack,
            self.populate,
        )
        &&& Some(plan.request.len) == self.file_mapping_len(file_len)
        &&& plan.request.file_offset == align_down_spec(self.offset as int, page_size as int)
        &&& plan.request.file_offset + plan.request.offset_delta == self.offset
        &&& plan.request.map_len == mapped_len(
            self.offset,
            plan.request.len,
            self.alignment,
            page_size,
        )
        &&& plan.request.alignment == trimmed_to(self.alignment, page_size)
        &&& plan.request.page_size == page_size
        &&& plan.prefetch_bytes == self.prefetched(plan.request.len, page_size)
    }

    /// Whether `plan` is the plan for an anonymous mapping of `len` bytes
    /// with these options.
    pub open spec fn plans_anon(
        &self,
        plan: MapPlan,
        platform: Platform,
        len: usize,
        page_size: usize,
    ) -> bool {
        &&& plan.request.wf()
        &&& request_follows(
            plan.request,
            platform,
            Protection { read: self.readable, write: self.writable, execute: self.executable },
            Backing::Anonymous,
            self.huge_pages,
            self.numa_policy,
            self.stack,
            self.populate,
        )
        &&& plan.request.len == len
        &&& plan.request.file_offset == 0
        &&& plan.request.offset_delta == 0
        &&& plan.request.map_len == mapped_len(0, len, self.alignment, page_size)
        &&& plan.request.alignment == trimmed_to(self.alignment, page_size)
        &&& plan.request.page_size == page_size
        &&& plan.prefetch_bytes == self.prefetched(len, page_size)
    }

    /// The plan for a read-only mapping of a file of `file_len` bytes: what
    /// to ask of the kernel, and what to prefetch afterwards. Fails as
    /// `file_mapping_error` says; a mapping of no bytes fails with
    /// `ZeroSizedMapping`.
    pub fn map(&self, platform: Platform, file_len: u64, page_size: usize) -> (r: Result<
        MapPlan,
        Error,
    >)
        ensures
            match r {
                Ok(plan) => self.file_mapping_error(platform, file_len, page_size) is None
                    && self.plans_file(plan, platform, file_len, page_size, self.writable),
                Err(e) => self.file_mapping_error(platform, file_len, page_size) == Some(
                    error_kind(e),
                ),
            },
    {
        self.plan_file(platform, file_len, page_size, self.writable)
    }

    /// The plan for a writable mapping of a file: as `map`, with the pages
    /// writable whatever the options say.
    pub fn map_mut(&self, platform: Platform, file_len: u64, page_size: usize) -> (r: Result<
        MapPlan,
        Error,
    >)
        ensures
            match r {
                Ok(plan) => self.file_mapping_error(platform, file_len, page_size) is None
                    && self.plans_file(plan, platform, file_len, page_size, true),
                Err(e) => self.file_mapping_error(platform, file_len, page_size) == Some(
                    error_kind(e),
                ),
            },
    {
        self.plan_file(platform, file_len, page_size, true)
    }

    /// The plan for an anonymous mapping of `len` bytes, whatever length
    /// the options name. Fails as `request_error` says of a request at
    /// offset zero; a mapping of no bytes fails with `ZeroSizedMapping`.
    pub fn map_anon(&self, platform: Platform, len: usize, page_size: usize) -> (r: Result<
        MapPlan,
        Error,
    >)
        ensures
            match r {
                Ok(plan) => request_error(platform, 0, len, self.alignment, page_size) is None
                    && self.plans_anon(plan, platform, len, page_size),
                Err(e) => request_error(platform, 0, len, self.alignment, page_size) == Some(
                    error_kind(e),
                ),
            },
    {
        let request = match map_anon(
            platform,
            len,
            self.readable,
            self.writable,
            self.executable,
            self.huge_pages,
            self.numa_policy,
            self.stack,
            self.populate,
            self.alignment,
            page_size,
        ) {
            Ok(r) => r,
            Err(e) => {
                return Err(e);
            },
        };
        let prefetch_bytes: usize = match self.prefetch {
            Some(strategy) => apply_strategy(len, strategy, page_size),
            None => 0,
        };
        Ok(MapPlan { request, prefetch_bytes })
    }

    /// The plan for a file mapping with the pages writable or not as given.
    fn plan_file(&self, platform: Platform, file_len: u64, page_size: usize, writable: bool) -> (r:
        Result<MapPlan, Error>)
        ensures
            match r {
                Ok(plan) => self.file_mapping_error(platform, file_len, page_size) is None
                    && self.plans_file(plan, platform, file_len, page_size, writable),
                Err(e) => self.file_mapping_error(platform, file_len, page_size) == Some(
                    error_kind(e),
                ),
            },
    {
        let len: usize = match self.len {
            Some(len) => len,
            None => {
                if file_len <= usize::MAX as u64 {
                    file_len as usize
                } else {
                    return Err(Error::SizeExceedsSystemLimit);
                }
            },
        };
        let request = match map_file(
            platform,
            self.offset,
            len,
            self.readable,
            writable,
            self.executable,
            self.huge_pages,
            self.numa_policy,
            self.stack,
            self.copy_on_write,
            self.populate,
            self.alignment,
            page_size,
        ) {
            Ok(r) => r,
            Err(e) => {
                return Err(e);
            },
        };
        let prefetch_bytes: usize = match self.prefetch {
            Some(strategy) => apply_strategy(len, strategy, page_size),
            None => 0,
        };
        Ok(MapPlan { request, prefetch_bytes })
    }
}

/// The first byte of a file mapping is the byte of the file at the offset
/// that was asked for, whether or not the offset is a multiple of the page
/// size; and the bytes that are handed out lie inside what stays mapped.
pub proof fn lemma_requested_byte_first(
    options: MmapOptions,
    plan: MapPlan,
    platform: Platform,
    file_len: u64,
    page_size: usize,
    writable: bool,
    base: usize,
    placement: Placement,
)
    requires
        options.plans_file(plan, platform, file_len, page_size, writable),
        plan.request.places(base, placement),
    ensures
        plan.request.file_offset + (placement.address - placement.region) == options.offset,
        Some(placement.len) == options.file_mapping_len(file_len),
        placement.region <= placement.address,
        placement.address + placement.len <= placement.region + placement.region_len,
{
}

/// A range of addresses with what the kernel is to do with it.
#[derive(Debug, Clone, Copy, PartialEq, Eq, Structural)]
pub enum KernelCall {
    /// Write the changed pages of the range back; do not wait where
    /// `asynchronous` is set.
    Flush {
        /// Where the range starts.
        address: usize,
        /// The length of the range.
        len: usize,
        /// Whether the call returns before the writes are done.
        asynchronous: bool,
    },
    /// Take the advice for the range.
    Advise {
        /// Where the range starts.
        address: usize,
        /// The length of the range.
        len: usize,
        /// The advice.
        advice: KernelAdvice,
    },
    /// Release the range.
    Unmap {
        /// Where the range starts.
        address: usize,
        /// The length of the range.
        len: usize,
    },
    /// Nothing is to be done.
    Nothing,
}

/// A mapping that the kernel made: the bytes that were asked for, inside
/// the region that stays mapped until the handle is given up.
#[derive(Debug)]
pub struct MmapRaw {
    placement: Placement,
    platform: Platform,
}

impl MmapRaw {
    /// The invariant of a handle: its bytes lie inside its region.
    #[verifier::type_invariant]
    pub closed spec fn wf(self) -> bool {
        &&& self.placement.region <= self.placement.address
        &&& self.placement.address + self.placement.len <= self.placement.region
            + self.placement.region_len <= usize::MAX
    }

    /// Where the mapping lies.
    pub closed spec fn spec_placement(&self) -> Placement {
        self.placement
    }

    /// The platform that made the mapping.
    pub closed spec fn spec_platform(&self) -> Platform {
        self.platform
    }

    /// The handle of the mapping that the kernel made for `request` at
    /// `base`. Fails where the mapping would reach beyond the address
    /// space.
    pub fn new(platform: Platform, request: &MapRequest, base: usize) -> (r: Result<MmapRaw, Error>)
        requires
            request.wf(),
        ensures
            match r {
                Ok(raw) => raw.wf() && raw.spec_platform() == platform && request.places(
                    base,
                    raw.spec_placement(),
                ),
                Err(e) => base + request.map_len > usize::MAX && e is SizeExceedsSystemLimit,
            },
    {
        match request.place(base) {
            Ok(placement) => Ok(MmapRaw { placement, platform }),
            Err(e) => Err(e),
        }
    }

    /// The parts of the mapping to release at once: what lies in front of
    /// the region, and what lies behind it.
    pub fn trims(&self) -> (r: (KernelCall, KernelCall))
        ensures
            r.0 == if self.spec_placement().front_len > 0 {
                KernelCall::Unmap {
                    address: self.spec_placement().front,
                    len: self.spec_placement().front_len,
                }
            } else {
                KernelCall::Nothing
            },
            r.1 == if self.spec_placement().back_len > 0 {
                KernelCall::Unmap {
                    address: self.spec_placement().back,
                    len: self.spec_placement().back_len,
                }
            } else {
                KernelCall::Nothing
            },
    {
        let front = if self.placement.front_len > 0 {
            KernelCall::Unmap { address: self.placement.front, len: self.placement.front_len }
        } else {
            KernelCall::Nothing
        };
        let back = if self.placement.back_len > 0 {
            KernelCall::Unmap { address: self.placement.back, len: self.placement.back_len }
        } else {
            KernelCall::Nothing
        };
        (front, back)
    }

    /// The number of bytes of the mapping.
    pub fn len(&self) -> (r: usize)
        ensures
            r == self.spec_placement().len,
    {
        self.placement.len
    }

    /// Whether the mapping has no bytes.
    pub fn is_empty(&self) -> (r: bool)
        ensures
            r == (self.spec_placement().len == 0),
    {
        self.placement.len == 0
    }

    /// The address of the first byte of the mapping.
    pub fn as_ptr(&self) -> (r: usize)
        ensures
            r == self.spec_placement().address,
    {
        self.placement.address
    }

    /// The part that stays mapped, as its address and its length: the pages
    /// that are touched, advised, flushed and at last released.
    pub fn region(&self) -> (r: (usize, usize))
        ensures
            r == (self.spec_placement().region, self.spec_placement().region_len),
    {
        (self.placement.region, self.placement.region_len)
    }

    /// The call that writes the mapping back and waits for the writes.
    pub fn flush(&self) -> (r: KernelCall)
        ensures
            r == (KernelCall::Flush {
                address: self.spec_placement().region,
                len: self.spec_placement().region_len,
                asynchronous: false,
            }),
    {
        KernelCall::Flush {
            address: self.placement.region,
            len: self.placement.region_len,
            asynchronous: flush(self.platform, false),
        }
    }

    /// The call that writes the mapping back without waiting, where the
    /// platform can do so.
    pub fn flush_async(&self) -> (r: KernelCall)
        ensures
            r == (KernelCall::Flush {
                address: self.spec_placement().region,
                len: self.spec_placement().region_len,
                asynchronous: !(self.spec_platform() is Windows),
            }),
    {
        KernelCall::Flush {
            address: self.placement.region,
            len: self.placement.region_len,
            asynchronous: flush(self.platform, true),
        }
    }

    /// The call that gives the kernel the advice, where the platform takes
    /// advice.
    pub fn advise(&self, advice: Advice) -> (r: KernelCall)
        ensures
            r == match self.spec_platform() {
                Platform::Windows => KernelCall::Nothing,
                _ => KernelCall::Advise {
                    address: self.spec_placement().region,
                    len: self.spec_placement().region_len,
                    advice: match advice {
                        Advice::Normal => KernelAdvice::Normal,
                        Advice::Random => KernelAdvice::Random,
                        Advice::Sequential => KernelAdvice::Sequential,
                        Advice::WillNeed => KernelAdvice::WillNeed,
                        Advice::DontNeed => KernelAdvice::DontNeed,
                        Advice::SequentialOnce => KernelAdvice::Sequential,
                        Advice::RandomOnce => KernelAdvice::Random,
                        Advice::Free => KernelAdvice::Free,
                    },
                },
            },
    {
        match advise(self.platform, advice) {
            Some(kernel_advice) => KernelCall::Advise {
                address: self.placement.region,
                len: self.placement.region_len,
                advice: kernel_advice,
            },
            None => KernelCall::Nothing,
        }
    }

    /// Gives the handle up: the call that releases the region. The handle
    /// is gone afterwards, so a mapping is released once.
    pub fn unmap(self) -> (r: KernelCall)
        ensures
            r == (KernelCall::Unmap {
                address: self.spec_placement().region,
                len: self.spec_placement().region_len,
            }),
    {
        KernelCall::Unmap { address: self.placement.region, len: self.placement.region_len }
    }
}

/// The counters of the mappings of a process.
#[derive(Debug, Clone, Copy, PartialEq, Eq, Structural)]
pub struct MappingCounters {
    /// The number of bytes that are mapped.
    pub total_mapped_memory: usize,
    /// The number of mappings.
    pub active_mappings: usize,
}

/// `a + b`, wrapped to the range of `usize`.
pub open spec fn wrapped_sum(a: usize, b: int) -> usize {
    ((a + b) % (usize::MAX + 1)) as usize
}

impl MappingCounters {
    /// Counters of a process without mappings.
    pub fn new() -> (r: MappingCounters)
        ensures
            r == (MappingCounters { total_mapped_memory: 0, active_mappings: 0 }),
    {
        MappingCounters { total_mapped_memory: 0, active_mappings: 0 }
    }

    /// Counts a new mapping of `len` bytes. The counters wrap around.
    pub fn mapped(&mut self, len: usize)
        ensures
            final(self).total_mapped_memory == wrapped_sum(old(self).total_mapped_memory, len as int),
            final(self).active_mappings == wrapped_sum(old(self).active_mappings, 1),
    {
        self.total_mapped_memory = wrapping_add(self.total_mapped_memory, len);
        self.active_mappings = wrapping_add(self.active_mappings, 1);
    }

    /// Counts the release of a mapping of `len` bytes. The counters wrap
    /// around.
    pub fn unmapped(&mut self, len: usize)
        ensures
            final(self).total_mapped_memory == wrapped_sum(
                old(self).total_mapped_memory,
                -(len as int),
            ),
            final(self).active_mappings == wrapped_sum(old(self).active_mappings, -1),
    {
        self.total_mapped_memory = wrapping_sub(self.total_mapped_memory, len);
        self.active_mappings = wrapping_sub(self.active_mappings, 1);
    }

    /// The number of bytes that are mapped.
    pub fn total_mapped_memory(&self) -> (r: usize)
        ensures
            r == self.total_mapped_memory,
    {
        self.total_mapped_memory
    }

    /// The number of mappings.
    pub fn active_mappings(&self) -> (r: usize)
        ensures
            r == self.active_mappings,
    {
        self.active_mappings
    }
}

/// `a + b`, wrapped to the range of `usize`.
fn wrapping_add(a: usize, b: usize) -> (r: usize)
    ensures
        r == wrapped_sum(a, b as int),
{
    let room: usize = usize::MAX - a;
    if b <= room {
        assert((a + b) % (usize::MAX + 1) == a + b) by (nonlinear_arith)
            requires
                0 <= a + b <= usize::MAX,
        ;
        a + b
    } else {
        assert((a + b) % (usize::MAX + 1) == a + b - (usize::MAX + 1)) by (nonlinear_arith)
            requires
                usize::MAX + 1 <= a + b < 2 * (usize::MAX + 1),
        ;
        b - room - 1
    }
}

/// `a - b`, wrapped to the range of `usize`.
fn wrapping_sub(a: usize, b: usize) -> (r: usize)
    ensures
        r == wrapped_sum(a, -(b as int)),
{
    if b <= a {
        assert((a - b) % (usize::MAX + 1) == a - b) by (nonlinear_arith)
            requires
                0 <= a - b <= usize::MAX,
        ;
        a - b
    } else {
        assert((a - b) % (usize::MAX + 1) == a - b + (usize::MAX + 1)) by (nonlinear_arith)
            requires
                -(usize::MAX + 1) <= a - b < 0,
        ;
        usize::MAX - (b - a) + 1
    }
}

/// Counting a mapping and then its release leaves the counters as they
/// were.
pub proof fn lemma_counters_restore(a: usize, len: usize)
    ensures
        wrapped_sum(wrapped_sum(a, len as int), -(len as int)) == a,
{
    let m = usize::MAX + 1;
    let s = wrapped_sum(a, len as int);
    if a + len < m {
        assert((a + len) % m == a + len) by (nonlinear_arith)
            requires
                0 <= a + len < m,
        ;
        assert((s - len) % m == a) by (nonlinear_arith)
            requires
                s - len == a,
                0 <= a < m,
        ;
    } else {
        assert((a + len) % m == a + len - m) by (nonlinear_arith)
            requires
                m <= a + len < 2 * m,
        ;
        assert((s - len) % m == a) by (nonlinear_arith)
            requires
                s - len == a - m,
                0 <= a < m,
        ;
    }
}

} // verus!
