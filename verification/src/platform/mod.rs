//! What is asked of the operating system for a mapping, and where the
//! mapping that comes back is placed.
//!
//! A mapping is made in three steps. `map_file` or `map_anon` turns the
//! wishes of the caller into a `MapRequest`: the protection, the flags, the
//! page-aligned window and its length. The caller has the kernel map that
//! window and hands the address back to `MapRequest::place`, which says
//! which part of the window is handed out and which parts are released.

use crate::advanced::{HugePageSize, NumaPolicy};
use crate::error::{error_kind, Error, ErrorKind};
use crate::utils::alignment::{
    align_down_spec, align_up, align_up_spec, is_power_of_two, lemma_align_down_props,
    lemma_pow2_single_bit,
};
use vstd::arithmetic::power2::is_pow2;
use vstd::prelude::*;

verus! {

/// How a mapping will be accessed, told to the kernel as advice.
#[derive(Debug, Clone, Copy, PartialEq, Eq, Structural)]
pub enum Advice {
    /// No special pattern.
    Normal,
    /// Random access.
    Random,
    /// Sequential access.
    Sequential,
    /// Needed soon.
    WillNeed,
    /// Not needed any more.
    DontNeed,
    /// Sequential access, once.
    SequentialOnce,
    /// Random access, once.
    RandomOnce,
    /// The pages may be reclaimed.
    Free,
}

/// The advice that a kernel knows.
#[derive(Debug, Clone, Copy, PartialEq, Eq, Structural)]
pub enum KernelAdvice {
    /// No special pattern.
    Normal,
    /// Random access.
    Random,
    /// Sequential access.
    Sequential,
    /// Needed soon.
    WillNeed,
    /// Not needed any more.
    DontNeed,
    /// The pages may be reclaimed.
    Free,
}

/// The family of the operating system.
#[derive(Debug, Clone, Copy, PartialEq, Eq, Structural)]
pub enum Platform {
    /// Linux.
    Linux,
    /// macOS.
    MacOs,
    /// Windows.
    Windows,
}

impl Advice {
    /// The name of the advice, which does not change between versions.
    pub fn name(&self) -> (r: &'static str)
        ensures
            r@ == match *self {
                Advice::Normal => "normal"@,
                Advice::Random => "random"@,
                Advice::Sequential => "sequential"@,
                Advice::WillNeed => "will_need"@,
                Advice::DontNeed => "dont_need"@,
                Advice::SequentialOnce => "sequential_once"@,
                Advice::RandomOnce => "random_once"@,
                Advice::Free => "free"@,
            },
    {
        match self {
            Advice::Normal => "normal",
            Advice::Random => "random",
            Advice::Sequential => "sequential",
            Advice::WillNeed => "will_need",
            Advice::DontNeed => "dont_need",
            Advice::SequentialOnce => "sequential_once",
            Advice::RandomOnce => "random_once",
            Advice::Free => "free",
        }
    }
}

/// What the kernel of a platform is told for an advice: the two advices for
/// a single pass are given as their plain forms, and Windows is told
/// nothing.
pub fn advise(platform: Platform, advice: Advice) -> (r: Option<KernelAdvice>)
    ensures
        r == match platform {
            Platform::Windows => None,
            _ => Some(
                match advice {
                    Advice::Normal => KernelAdvice::Normal,
                    Advice::Random => KernelAdvice::Random,
                    Advice::Sequential => KernelAdvice::Sequential,
                    Advice::WillNeed => KernelAdvice::WillNeed,
                    Advice::DontNeed => KernelAdvice::DontNeed,
                    Advice::SequentialOnce => KernelAdvice::Sequential,
                    Advice::RandomOnce => KernelAdvice::Random,
                    Advice::Free => KernelAdvice::Free,
                },
            ),
        },
{
    match platform {
        Platform::Windows => None,
        _ => Some(
            match advice {
                Advice::Normal => KernelAdvice::Normal,
                Advice::Random => KernelAdvice::Random,
                Advice::Sequential => KernelAdvice::Sequential,
                Advice::WillNeed => KernelAdvice::WillNeed,
                Advice::DontNeed => KernelAdvice::DontNeed,
                Advice::SequentialOnce => KernelAdvice::Sequential,
                Advice::RandomOnce => KernelAdvice::Random,
                Advice::Free => KernelAdvice::Free,
            },
        ),
    }
}

/// How a flush is to be made: on Windows every flush waits, elsewhere an
/// asynchronous flush returns when the writes are scheduled. True where the
/// kernel is asked not to wait.
pub fn flush(platform: Platform, async_flush: bool) -> (r: bool)
    ensures
        r == (async_flush && !(platform is Windows)),
{
    match platform {
        Platform::Windows => false,
        _ => async_flush,
    }
}

/// The protection of the pages of a mapping.
#[derive(Debug, Clone, Copy, PartialEq, Eq, Structural)]
pub struct Protection {
    /// The pages can be read.
    pub read: bool,
    /// The pages can be written.
    pub write: bool,
    /// The pages can be executed.
    pub execute: bool,
}

/// What a mapping is backed by and who sees changes to it.
#[derive(Debug, Clone, Copy, PartialEq, Eq, Structural)]
pub enum Backing {
    /// A file; changes reach the file.
    SharedFile,
    /// A file; changes stay private to the mapping.
    PrivateFile,
    /// Zero-filled pages that belong to the mapping alone.
    Anonymous,
}

/// What the kernel is asked for.
#[derive(Debug, Clone, Copy)]
pub struct MapRequest {
    /// The protection of the pages.
    pub protection: Protection,
    /// What backs the mapping.
    pub backing: Backing,
    /// Whether the kernel is told that the mapping is a stack.
    pub stack: bool,
    /// The huge pages that the kernel is asked for.
    pub huge_pages: Option<HugePageSize>,
    /// Whether the kernel is asked to fault the pages in.
    pub populate: bool,
    /// Whether the pages are to be touched one by one after the mapping is
    /// made, where the kernel cannot be asked to fault them in.
    pub touch_pages: bool,
    /// The NUMA policy to apply after the mapping is made.
    pub numa_policy: Option<NumaPolicy>,
    /// Where the window starts in the file: a multiple of the page size.
    pub file_offset: u64,
    /// How far behind the start of the window the first byte lies that the
    /// caller asked for.
    pub offset_delta: usize,
    /// The number of bytes that the caller asked for.
    pub len: usize,
    /// The number of bytes that the kernel is asked to map.
    pub map_len: usize,
    /// The alignment that the window is trimmed to, where it is larger than
    /// a page.
    pub alignment: Option<usize>,
    /// The page size that the request was made for.
    pub page_size: usize,
}

/// Where a mapping lies once the kernel has made it.
#[derive(Debug, Clone, Copy, PartialEq, Eq, Structural)]
pub struct Placement {
    /// The address of the first byte that the caller asked for.
    pub address: usize,
    /// The number of bytes that the caller asked for.
    pub len: usize,
    /// The address where the part that stays mapped starts.
    pub region: usize,
    /// The length of the part that stays mapped.
    pub region_len: usize,
    /// Where the part starts that is released in front of the region.
    pub front: usize,
    /// The length of the part that is released in front; zero for none.
    pub front_len: usize,
    /// Where the part starts that is released behind the region.
    pub back: usize,
    /// The length of the part that is released behind; zero for none.
    pub back_len: usize,
}

impl MapRequest {
    /// The number of bytes of the window: what the caller asked for and
    /// what lies in front of it on its page.
    pub open spec fn window_len(&self) -> int {
        self.len + self.offset_delta
    }

    /// Whether the request is one that `map_file` or `map_anon` makes.
    pub open spec fn wf(&self) -> bool {
        &&& is_pow2(self.page_size as int)
        &&& self.len > 0
        &&& self.offset_delta < self.page_size
        &&& self.file_offset % (self.page_size as u64) == 0
        &&& match self.alignment {
            Some(align) => is_pow2(align as int) && align > self.page_size && self.map_len
                == self.window_len() + align - 1,
            None => self.map_len == self.window_len(),
        }
    }

    /// Whether the request is one that `map_file` or `map_anon` makes.
    pub fn is_well_formed(&self) -> (r: bool)
        ensures
            r == self.wf(),
    {
        if !is_power_of_two(self.page_size) {
            return false;
        }
        proof {
            lemma_pow2_single_bit(self.page_size);
        }
        if self.len == 0 || self.offset_delta >= self.page_size || self.file_offset % (
        self.page_size as u64) != 0 {
            return false;
        }
        let window: usize = match self.len.checked_add(self.offset_delta) {
            Some(w) => w,
            None => {
                return false;
            },
        };
        match self.alignment {
            Some(align) => is_power_of_two(align) && align > self.page_size && (
            match window.checked_add(align - 1) {
                Some(total) => self.map_len == total,
                None => false,
            }),
            None => self.map_len == window,
        }
    }

    /// Whether `p` is where the mapping lies that the kernel made at `base`:
    /// the region holds the window and starts at `base`, or where the
    /// request has an alignment, at the first multiple of the alignment at
    /// or behind `base`; the bytes that were asked for start `offset_delta`
    /// into the region; and the front part, the region and the back part
    /// lie one after the other and make up all that was mapped.
    pub open spec fn places(&self, base: usize, p: Placement) -> bool {
        &&& base + self.map_len <= usize::MAX
        &&& p.len == self.len
        &&& p.address == p.region + self.offset_delta
        &&& p.region_len == self.window_len()
        &&& p.front == base
        &&& p.region == p.front + p.front_len
        &&& p.back == p.region + p.region_len
        &&& p.front_len + p.region_len + p.back_len == self.map_len
        &&& match self.alignment {
            Some(align) => p.region == align_up_spec(base as int, align as int) && p.region
                % align == 0,
            None => p.region == base,
        }
    }

    /// Places the mapping that the kernel made at `base`: where the request
    /// has an alignment, the region starts at the first multiple of the
    /// alignment at or behind `base`, and what lies in front of it and
    /// behind it is released. Fails where the mapping would reach beyond
    /// the address space, which no mapping that the kernel made does.
    pub fn place(&self, base: usize) -> (r: Result<Placement, Error>)
        requires
            self.wf(),
        ensures
            match r {
                Ok(p) => self.places(base, p),
                Err(e) => base + self.map_len > usize::MAX && e is SizeExceedsSystemLimit,
            },
    {
        let end: usize = match base.checked_add(self.map_len) {
            Some(v) => v,
            None => {
                return Err(Error::SizeExceedsSystemLimit);
            },
        };
        let window: usize = self.len + self.offset_delta;
        match self.alignment {
            Some(align) => {
                let region: usize = align_up(base, align);
                let front_len: usize = region - base;
                Ok(
                    Placement {
                        address: region + self.offset_delta,
                        len: self.len,
                        region,
                        region_len: window,
                        front: base,
                        front_len,
                        back: region + window,
                        back_len: (align - 1) - front_len,
                    },
                )
            },
            None => Ok(
                Placement {
                    address: base + self.offset_delta,
                    len: self.len,
                    region: base,
                    region_len: window,
                    front: base,
                    front_len: 0,
                    back: end,
                    back_len: 0,
                },
            ),
        }
    }
}

/// The page-aligned window of a request for `len` bytes at `offset`, and the
/// alignment to trim to: fails with `ZeroSizedMapping` for no bytes, with
/// `AlignmentError` for an alignment that is no power of two, with
/// `InvalidArgument` for a page size that is no power of two and for an
/// alignment above the page size on Windows, and with
/// `SizeExceedsSystemLimit` where the window does not fit the address space.
fn window(platform: Platform, offset: u64, len: usize, alignment: Option<usize>, page_size: usize) -> (r:
    Result<(u64, usize, usize, Option<usize>), Error>)
    ensures
        match r {
            Ok((file_offset, delta, map_len, trim)) => {
                &&& request_error(platform, offset, len, alignment, page_size) is None
                &&& file_offset == align_down_spec(offset as int, page_size as int)
                &&& file_offset % (page_size as u64) == 0
                &&& file_offset + delta == offset
                &&& delta < page_size
                &&& trim == trimmed_to(alignment, page_size)
                &&& map_len == mapped_len(offset, len, alignment, page_size)
            },
            Err(e) => request_error(platform, offset, len, alignment, page_size) == Some(
                error_kind(e),
            ),
        },
{
    if len == 0 {
        return Err(Error::ZeroSizedMapping);
    }
    match alignment {
        Some(align) => {
            if !is_power_of_two(align) {
                return Err(Error::AlignmentError);
            }
        },
        None => {},
    }
    if !is_power_of_two(page_size) {
        return Err(Error::InvalidArgument("Page size is not a power of two".to_owned()));
    }
    let trim: Option<usize> = match alignment {
        Some(align) => if align > page_size {
            Some(align)
        } else {
            None
        },
        None => None,
    };
    if trim.is_some() {
        match platform {
            Platform::Windows => {
                return Err(
                    Error::InvalidArgument(
                        "Custom alignment beyond page size is not supported on Windows".to_owned(),
                    ),
                );
            },
            _ => {},
        }
    }
    proof {
        lemma_pow2_single_bit(page_size);
    }
    let within: u64 = offset % (page_size as u64);
    proof {
        lemma_align_down_props(offset as int, page_size as int);
    }
    let file_offset: u64 = offset - within;
    let delta: usize = within as usize;
    let window_len: usize = match len.checked_add(delta) {
        Some(v) => v,
        None => {
            return Err(Error::SizeExceedsSystemLimit);
        },
    };
    let map_len: usize = match trim {
        Some(align) => match window_len.checked_add(align - 1) {
            Some(v) => v,
            None => {
                return Err(Error::SizeExceedsSystemLimit);
            },
        },
        None => window_len,
    };
    Ok((file_offset, delta, map_len, trim))
}

/// The alignment that a window is trimmed to: the one asked for where it is
/// larger than a page.
pub open spec fn trimmed_to(alignment: Option<usize>, page_size: usize) -> Option<usize> {
    match alignment {
        Some(align) => if align > page_size {
            Some(align)
        } else {
            None
        },
        None => None,
    }
}

/// The number of bytes that the kernel is asked to map for `len` bytes at
/// `offset`: the bytes, what lies in front of them on their page, and where
/// the window is trimmed to an alignment, that alignment less one.
pub open spec fn mapped_len(offset: u64, len: usize, alignment: Option<usize>, page_size: usize) -> int {
    len + offset as int % page_size as int + match trimmed_to(alignment, page_size) {
        Some(align) => align - 1,
        None => 0,
    }
}

/// Why a request for `len` bytes at `offset` is refused, if it is: the
/// first of the reasons that holds, in this order.
pub open spec fn request_error(
    platform: Platform,
    offset: u64,
    len: usize,
    alignment: Option<usize>,
    page_size: usize,
) -> Option<ErrorKind> {
    if len == 0 {
        Some(ErrorKind::ZeroSizedMapping)
    } else if alignment is Some && !is_pow2(alignment.unwrap() as int) {
        Some(ErrorKind::AlignmentError)
    } else if !is_pow2(page_size as int) {
        Some(ErrorKind::InvalidArgument)
    } else if platform is Windows && trimmed_to(alignment, page_size) is Some {
        Some(ErrorKind::InvalidArgument)
    } else if mapped_len(offset, len, alignment, page_size) > usize::MAX {
        Some(ErrorKind::SizeExceedsSystemLimit)
    } else {
        None
    }
}

/// Whether a request is what the platform makes of the wishes of a caller:
/// Linux passes the stack hint, the huge pages and the wish to populate on
/// to the kernel and applies the NUMA policy afterwards; macOS drops the
/// stack hint, the huge pages and the NUMA policy; Windows drops the stack
/// hint and the NUMA policy; and where the kernel is not asked to populate,
/// the pages are touched instead.
pub open spec fn request_follows(
    req: MapRequest,
    platform: Platform,
    protection: Protection,
    backing: Backing,
    huge_pages: Option<HugePageSize>,
    numa_policy: Option<NumaPolicy>,
    stack: bool,
    populate: bool,
) -> bool {
    &&& req.protection == protection
    &&& req.backing == backing
    &&& req.stack == (stack && platform is Linux)
    &&& req.huge_pages == if platform is MacOs {
        None
    } else {
        huge_pages
    }
    &&& req.populate == (populate && platform is Linux)
    &&& req.touch_pages == (populate && !(platform is Linux))
    &&& req.numa_policy == if platform is Linux {
        numa_policy
    } else {
        None
    }
}

/// The request that the flags of a caller make on a platform.
fn request(
    platform: Platform,
    protection: Protection,
    backing: Backing,
    huge_pages: Option<HugePageSize>,
    numa_policy: Option<NumaPolicy>,
    stack: bool,
    populate: bool,
    file_offset: u64,
    offset_delta: usize,
    len: usize,
    map_len: usize,
    alignment: Option<usize>,
    page_size: usize,
) -> (r: MapRequest)
    ensures
        request_follows(r, platform, protection, backing, huge_pages, numa_policy, stack, populate),
        r.file_offset == file_offset,
        r.offset_delta == offset_delta,
        r.len == len,
        r.map_len == map_len,
        r.alignment == alignment,
        r.page_size == page_size,
{
    let linux: bool = match platform {
        Platform::Linux => true,
        _ => false,
    };
    MapRequest {
        protection,
        backing,
        stack: stack && linux,
        huge_pages: match platform {
            Platform::MacOs => None,
            _ => huge_pages,
        },
        populate: populate && linux,
        touch_pages: populate && !linux,
        numa_policy: if linux {
            numa_policy
        } else {
            None
        },
        file_offset,
        offset_delta,
        len,
        map_len,
        alignment,
        page_size,
    }
}

/// The request for a mapping of `len` bytes of a file from `offset` on.
/// The window starts at the multiple of the page size at or below `offset`
/// and is longer by what lies between the two. A private mapping is asked
/// for with `copy_on_write`, else a shared one. Fails as `request_error`
/// says.
pub fn map_file(
    platform: Platform,
    offset: u64,
    len: usize,
    readable: bool,
    writable: bool,
    executable: bool,
    huge_pages: Option<HugePageSize>,
    numa_policy: Option<NumaPolicy>,
    stack: bool,
    copy_on_write: bool,
    populate: bool,
    alignment: Option<usize>,
    page_size: usize,
) -> (r: Result<MapRequest, Error>)
    ensures
        match r {
            Ok(req) => {
                &&& request_error(platform, offset, len, alignment, page_size) is None
                &&& req.wf()
                &&& request_follows(
                    req,
                    platform,
                    Protection { read: readable, write: writable, execute: executable },
                    if copy_on_write {
                        Backing::PrivateFile
                    } else {
                        Backing::SharedFile
                    },
                    huge_pages,
                    numa_policy,
                    stack,
                    populate,
                )
                &&& req.file_offset == align_down_spec(offset as int, page_size as int)
                &&& req.file_offset + req.offset_delta == offset
                &&& req.len == len
                &&& req.map_len == mapped_len(offset, len, alignment, page_size)
                &&& req.alignment == trimmed_to(alignment, page_size)
                &&& req.page_size == page_size
            },
            Err(e) => request_error(platform, offset, len, alignment, page_size) == Some(
                error_kind(e),
            ),
        },
{
    let (file_offset, delta, map_len, trim) = match window(
        platform,
        offset,
        len,
        alignment,
        page_size,
    ) {
        Ok(w) => w,
        Err(e) => {
            return Err(e);
        },
    };
    let backing: Backing = if copy_on_write {
        Backing::PrivateFile
    } else {
        Backing::SharedFile
    };
    Ok(
        request(
            platform,
            Protection { read: readable, write: writable, execute: executable },
            backing,
            huge_pages,
            numa_policy,
            stack,
            populate,
            file_offset,
            delta,
            len,
            map_len,
            trim,
            page_size,
        ),
    )
}

/// The request for an anonymous mapping of `len` bytes: private to the
/// mapping, zero-filled, with no window into a file. Fails as
/// `request_error` says of a request at offset zero.
pub fn map_anon(
    platform: Platform,
    len: usize,
    readable: bool,
    writable: bool,
    executable: bool,
    huge_pages: Option<HugePageSize>,
    numa_policy: Option<NumaPolicy>,
    stack: bool,
    populate: bool,
    alignment: Option<usize>,
    page_size: usize,
) -> (r: Result<MapRequest, Error>)
    ensures
        match r {
            Ok(req) => {
                &&& request_error(platform, 0, len, alignment, page_size) is None
                &&& req.wf()
                &&& request_follows(
                    req,
                    platform,
                    Protection { read: readable, write: writable, execute: executable },
                    Backing::Anonymous,
                    huge_pages,
                    numa_policy,
                    stack,
                    populate,
                )
                &&& req.file_offset == 0
                &&& req.offset_delta == 0
                &&& req.len == len
                &&& req.map_len == mapped_len(0, len, alignment, page_size)
                &&& req.alignment == trimmed_to(alignment, page_size)
                &&& req.page_size == page_size
            },
            Err(e) => request_error(platform, 0, len, alignment, page_size) == Some(error_kind(e)),
        },
{
    let (file_offset, delta, map_len, trim) = match window(platform, 0, len, alignment, page_size) {
        Ok(w) => w,
        Err(e) => {
            return Err(e);
        },
    };
    Ok(
        request(
            platform,
            Protection { read: readable, write: writable, execute: executable },
            Backing::Anonymous,
            huge_pages,
            numa_policy,
            stack,
            populate,
            file_offset,
            delta,
            len,
            map_len,
            trim,
            page_size,
        ),
    )
}

/// The region that a mapping is released with: the part that stayed mapped,
/// not the bytes that were handed out.
pub fn unmap(placement: &Placement) -> (r: (usize, usize))
    ensures
        r == (placement.region, placement.region_len),
{
    (placement.region, placement.region_len)
}

} // verus!
