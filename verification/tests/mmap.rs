use membase::advanced::prefetch::{apply_strategy, touch_count};
use membase::platform::{
    advise, flush, map_anon, map_file, Advice, Backing, KernelAdvice, Platform, Protection,
};
use membase::{
    Error, HugePageSize, KernelCall, MappingCounters, MmapOptions, MmapRaw, NumaPolicy,
    PrefetchStrategy,
};

const PAGE: usize = 4096;

#[test]
fn default_options() {
    let o = MmapOptions::new();
    assert_eq!(o.offset, 0);
    assert_eq!(o.len, None);
    assert!(o.readable);
    assert!(!o.writable);
    assert!(!o.executable);
    assert!(o.huge_pages.is_none());
    assert!(o.numa_policy.is_none());
    assert!(o.prefetch.is_none());
    assert!(!o.stack);
    assert!(!o.copy_on_write);
    assert!(!o.populate);
    assert!(o.alignment.is_none());
}

#[test]
fn default_is_new() {
    let d = MmapOptions::default();
    let n = MmapOptions::new();
    assert_eq!((d.offset, d.len, d.readable, d.writable), (n.offset, n.len, n.readable, n.writable));
    assert_eq!(d.alignment, n.alignment);
    assert_eq!(d.populate, n.populate);
}

#[test]
fn request_of_the_library_is_well_formed() {
    let r = MmapOptions::new().offset(5).len(10).map(Platform::Linux, 100, PAGE).unwrap().request;
    assert!(r.is_well_formed());
    let mut bad = r;
    bad.map_len += 1;
    assert!(!bad.is_well_formed());
    let mut bad = r;
    bad.len = 0;
    assert!(!bad.is_well_formed());
    let mut bad = r;
    bad.page_size = 100;
    assert!(!bad.is_well_formed());
    let mut bad = r;
    bad.file_offset = 1;
    assert!(!bad.is_well_formed());
    let mut bad = r;
    bad.alignment = Some(64);
    assert!(!bad.is_well_formed());
    let aligned = MmapOptions::new().alignment(1 << 20).map_anon(Platform::Linux, 7, PAGE).unwrap();
    assert!(aligned.request.is_well_formed());
}

#[test]
fn builder_sets_one_option_each() {
    let o = MmapOptions::new()
        .offset(7)
        .len(9)
        .read(false)
        .write(true)
        .exec(true)
        .huge_pages(HugePageSize::OneGB)
        .numa_policy(NumaPolicy::Bind(3))
        .prefetch(PrefetchStrategy::Custom(128))
        .stack(true)
        .copy_on_write(true)
        .populate(true)
        .alignment(8192);
    assert_eq!(o.offset, 7);
    assert_eq!(o.len, Some(9));
    assert!(!o.readable);
    assert!(o.writable);
    assert!(o.executable);
    assert_eq!(o.huge_pages, Some(HugePageSize::OneGB));
    assert!(matches!(o.numa_policy, Some(NumaPolicy::Bind(3))));
    assert_eq!(o.prefetch, Some(PrefetchStrategy::Custom(128)));
    assert!(o.stack);
    assert!(o.copy_on_write);
    assert!(o.populate);
    assert_eq!(o.alignment, Some(8192));
    let p = MmapOptions::new().write(true);
    assert!(p.readable && p.writable && !p.executable && p.len.is_none());
}

#[test]
fn zero_sized_request_fails() {
    let o = MmapOptions::new();
    assert!(matches!(o.map_anon(Platform::Linux, 0, PAGE), Err(Error::ZeroSizedMapping)));
    assert!(matches!(o.len(0).map(Platform::Linux, 100, PAGE), Err(Error::ZeroSizedMapping)));
    assert!(matches!(o.map(Platform::Linux, 0, PAGE), Err(Error::ZeroSizedMapping)));
    assert!(matches!(o.map_mut(Platform::MacOs, 0, PAGE), Err(Error::ZeroSizedMapping)));
    assert!(matches!(
        o.alignment(3).map_anon(Platform::Windows, 0, PAGE),
        Err(Error::ZeroSizedMapping)
    ));
}

#[test]
fn anonymous_map_of_one_page() {
    let plan = MmapOptions::new().write(true).map_anon(Platform::Linux, 4096, PAGE).unwrap();
    let r = plan.request;
    assert_eq!(r.protection, Protection { read: true, write: true, execute: false });
    assert_eq!(r.backing, Backing::Anonymous);
    assert_eq!(r.len, 4096);
    assert_eq!(r.map_len, 4096);
    assert_eq!(r.file_offset, 0);
    assert_eq!(r.offset_delta, 0);
    assert_eq!(r.alignment, None);
    assert!(!r.stack && !r.populate && !r.touch_pages);
    assert_eq!(plan.prefetch_bytes, 0);
    let p = r.place(0x7000_0000).unwrap();
    assert_eq!(p.address, 0x7000_0000);
    assert_eq!(p.len, 4096);
    assert_eq!((p.region, p.region_len), (0x7000_0000, 4096));
    assert_eq!(p.front_len, 0);
    assert_eq!(p.back_len, 0);
}

#[test]
fn whole_file_of_fifteen_bytes() {
    let plan = MmapOptions::new().map(Platform::Linux, 15, PAGE).unwrap();
    let r = plan.request;
    assert_eq!(r.len, 15);
    assert_eq!(r.map_len, 15);
    assert_eq!(r.backing, Backing::SharedFile);
    assert_eq!(r.protection, Protection { read: true, write: false, execute: false });
    let raw = MmapRaw::new(Platform::Linux, &r, 0x1000).unwrap();
    assert_eq!(raw.len(), 15);
    assert!(!raw.is_empty());
    assert_eq!(raw.as_ptr(), 0x1000);
}

#[test]
fn map_mut_forces_writable_pages() {
    let o = MmapOptions::new().copy_on_write(true);
    let r = o.map(Platform::Linux, 10, PAGE).unwrap().request;
    assert!(!r.protection.write);
    assert_eq!(r.backing, Backing::PrivateFile);
    let r = o.map_mut(Platform::Linux, 10, PAGE).unwrap().request;
    assert!(r.protection.write);
    assert!(r.protection.read);
}

#[test]
fn offset_inside_a_page_exposes_the_requested_byte() {
    let plan = MmapOptions::new().offset(4097).len(100).map(Platform::Linux, 10_000, PAGE).unwrap();
    let r = plan.request;
    assert_eq!(r.file_offset, 4096);
    assert_eq!(r.offset_delta, 1);
    assert_eq!(r.len, 100);
    assert_eq!(r.map_len, 101);
    let p = r.place(0x10_0000).unwrap();
    assert_eq!(p.address, 0x10_0001);
    assert_eq!(p.region, 0x10_0000);
    assert_eq!(p.region_len, 101);
    assert_eq!(r.file_offset + (p.address - p.region) as u64, 4097);
    let raw = MmapRaw::new(Platform::Linux, &r, 0x10_0000).unwrap();
    assert_eq!(raw.region(), (0x10_0000, 101));
    assert_eq!(raw.as_ptr(), 0x10_0001);
    assert_eq!(raw.len(), 100);
    assert_eq!(
        raw.flush(),
        KernelCall::Flush { address: 0x10_0000, len: 101, asynchronous: false }
    );
    assert_eq!(raw.unmap(), KernelCall::Unmap { address: 0x10_0000, len: 101 });
}

#[test]
fn custom_alignment_trims_front_and_back() {
    let align = 1usize << 16;
    let r = map_anon(
        Platform::Linux,
        10_000,
        true,
        true,
        false,
        None,
        None,
        false,
        false,
        Some(align),
        PAGE,
    )
    .unwrap();
    assert_eq!(r.alignment, Some(align));
    assert_eq!(r.map_len, 10_000 + align - 1);
    let base = 0x7f00_0000_3000usize;
    let p = r.place(base).unwrap();
    assert_eq!(p.region % align, 0);
    assert_eq!(p.region, 0x7f00_0001_0000);
    assert_eq!(p.address, p.region);
    assert_eq!(p.front, base);
    assert_eq!(p.front_len, 0xD000);
    assert_eq!(p.back, p.region + 10_000);
    assert_eq!(p.front_len + p.region_len + p.back_len, r.map_len);
    let raw = MmapRaw::new(Platform::Linux, &r, base).unwrap();
    let (front, back) = raw.trims();
    assert_eq!(front, KernelCall::Unmap { address: base, len: 0xD000 });
    assert_eq!(back, KernelCall::Unmap { address: p.back, len: p.back_len });

    let p = r.place(align * 5).unwrap();
    assert_eq!(p.region, align * 5);
    assert_eq!(p.front_len, 0);
    assert_eq!(p.back_len, align - 1);
    let raw = MmapRaw::new(Platform::Linux, &r, align * 5).unwrap();
    assert_eq!(raw.trims().0, KernelCall::Nothing);
}

#[test]
fn alignment_up_to_a_page_is_met_by_every_mapping() {
    let r = map_anon(Platform::Linux, 10, true, false, false, None, None, false, false, Some(64), PAGE)
        .unwrap();
    assert_eq!(r.alignment, None);
    assert_eq!(r.map_len, 10);
    let r = map_anon(Platform::Linux, 10, true, false, false, None, None, false, false, Some(PAGE), PAGE)
        .unwrap();
    assert_eq!(r.alignment, None);
}

#[test]
fn alignment_that_is_no_power_of_two_fails() {
    let o = MmapOptions::new().alignment(3000);
    assert!(matches!(o.map_anon(Platform::Linux, 10, PAGE), Err(Error::AlignmentError)));
    let o = MmapOptions::new().alignment(0);
    assert!(matches!(o.map(Platform::MacOs, 10, PAGE), Err(Error::AlignmentError)));
    let o = MmapOptions::new().alignment(12288);
    assert!(matches!(o.map_anon(Platform::Windows, 10, PAGE), Err(Error::AlignmentError)));
}

#[test]
fn windows_rejects_alignment_above_a_page() {
    let o = MmapOptions::new().alignment(1 << 16);
    assert!(matches!(o.map_anon(Platform::Windows, 10, PAGE), Err(Error::InvalidArgument(_))));
    assert!(matches!(o.map(Platform::Windows, 10, PAGE), Err(Error::InvalidArgument(_))));
    assert!(o.map_anon(Platform::MacOs, 10, PAGE).is_ok());
    assert!(MmapOptions::new().alignment(PAGE).map_anon(Platform::Windows, 10, PAGE).is_ok());
}

#[test]
fn page_size_must_be_a_power_of_two() {
    let o = MmapOptions::new();
    assert!(matches!(o.map_anon(Platform::Linux, 10, 0), Err(Error::InvalidArgument(_))));
    assert!(matches!(o.map_anon(Platform::Linux, 10, 5000), Err(Error::InvalidArgument(_))));
}

#[test]
fn length_beyond_the_address_space_fails() {
    let o = MmapOptions::new().offset(1).len(usize::MAX);
    assert!(matches!(o.map(Platform::Linux, 10, PAGE), Err(Error::SizeExceedsSystemLimit)));
    let o = MmapOptions::new().alignment(1 << 20);
    assert!(matches!(
        o.map_anon(Platform::Linux, usize::MAX - 10, PAGE),
        Err(Error::SizeExceedsSystemLimit)
    ));
    let r = MmapOptions::new().map_anon(Platform::Linux, 4096, PAGE).unwrap().request;
    assert!(matches!(r.place(usize::MAX - 100), Err(Error::SizeExceedsSystemLimit)));
    assert!(matches!(
        MmapRaw::new(Platform::Linux, &r, usize::MAX - 100),
        Err(Error::SizeExceedsSystemLimit)
    ));
    assert!(r.place(usize::MAX - 4096).is_ok());
}

#[test]
fn platforms_differ_in_what_the_kernel_is_asked() {
    let ask = |platform| {
        map_file(
            platform,
            0,
            100,
            true,
            false,
            false,
            Some(HugePageSize::TwoMB),
            Some(NumaPolicy::Preferred(1)),
            true,
            false,
            true,
            None,
            PAGE,
        )
        .unwrap()
    };
    let linux = ask(Platform::Linux);
    assert!(linux.stack && linux.populate && !linux.touch_pages);
    assert_eq!(linux.huge_pages, Some(HugePageSize::TwoMB));
    assert!(matches!(linux.numa_policy, Some(NumaPolicy::Preferred(1))));
    let mac = ask(Platform::MacOs);
    assert!(!mac.stack && !mac.populate && mac.touch_pages);
    assert_eq!(mac.huge_pages, None);
    assert!(mac.numa_policy.is_none());
    let win = ask(Platform::Windows);
    assert!(!win.stack && !win.populate && win.touch_pages);
    assert_eq!(win.huge_pages, Some(HugePageSize::TwoMB));
    assert!(win.numa_policy.is_none());
}

#[test]
fn advice_names_and_kernel_advice() {
    let all = [
        (Advice::Normal, "normal", KernelAdvice::Normal),
        (Advice::Random, "random", KernelAdvice::Random),
        (Advice::Sequential, "sequential", KernelAdvice::Sequential),
        (Advice::WillNeed, "will_need", KernelAdvice::WillNeed),
        (Advice::DontNeed, "dont_need", KernelAdvice::DontNeed),
        (Advice::SequentialOnce, "sequential_once", KernelAdvice::Sequential),
        (Advice::RandomOnce, "random_once", KernelAdvice::Random),
        (Advice::Free, "free", KernelAdvice::Free),
    ];
    for (advice, name, kernel) in all {
        assert_eq!(advice.name(), name);
        assert_eq!(advise(Platform::Linux, advice), Some(kernel));
        assert_eq!(advise(Platform::MacOs, advice), Some(kernel));
        assert_eq!(advise(Platform::Windows, advice), None);
    }
}

#[test]
fn flush_and_advise_of_a_handle() {
    let r = MmapOptions::new().map_anon(Platform::Linux, 4096, PAGE).unwrap().request;
    let raw = MmapRaw::new(Platform::Linux, &r, 0x4000).unwrap();
    let once = raw.flush();
    let twice = raw.flush();
    assert_eq!(once, twice);
    assert_eq!(once, KernelCall::Flush { address: 0x4000, len: 4096, asynchronous: false });
    assert_eq!(
        raw.flush_async(),
        KernelCall::Flush { address: 0x4000, len: 4096, asynchronous: true }
    );
    assert_eq!(
        raw.advise(Advice::SequentialOnce),
        KernelCall::Advise { address: 0x4000, len: 4096, advice: KernelAdvice::Sequential }
    );
    let raw = MmapRaw::new(Platform::Windows, &r, 0x4000).unwrap();
    assert_eq!(
        raw.flush_async(),
        KernelCall::Flush { address: 0x4000, len: 4096, asynchronous: false }
    );
    assert_eq!(raw.advise(Advice::Random), KernelCall::Nothing);
    assert!(flush(Platform::Linux, true));
    assert!(!flush(Platform::Linux, false));
    assert!(!flush(Platform::Windows, true));
}

#[test]
fn prefetch_spans() {
    assert_eq!(apply_strategy(100_000, PrefetchStrategy::Off, PAGE), 0);
    assert_eq!(apply_strategy(100_000, PrefetchStrategy::Random, PAGE), 0);
    assert_eq!(apply_strategy(100_000, PrefetchStrategy::Sequential, PAGE), 16384);
    assert_eq!(apply_strategy(5000, PrefetchStrategy::Sequential, PAGE), 5000);
    assert_eq!(apply_strategy(5000, PrefetchStrategy::Sequential, usize::MAX), 5000);
    assert_eq!(apply_strategy(5000, PrefetchStrategy::Custom(128), PAGE), 128);
    assert_eq!(apply_strategy(100, PrefetchStrategy::Custom(128), PAGE), 100);
    assert_eq!(touch_count(0), 0);
    assert_eq!(touch_count(1), 1);
    assert_eq!(touch_count(64), 1);
    assert_eq!(touch_count(65), 2);
    assert_eq!(touch_count(16384), 256);
    let plan = MmapOptions::new()
        .prefetch(PrefetchStrategy::Sequential)
        .map_anon(Platform::Linux, 1 << 20, PAGE)
        .unwrap();
    assert_eq!(plan.prefetch_bytes, 16384);
}

#[test]
fn huge_page_sizes() {
    assert_eq!(HugePageSize::TwoMB.bytes(), 2 * 1024 * 1024);
    assert_eq!(HugePageSize::OneGB.bytes(), 1024 * 1024 * 1024);
}

#[test]
fn counters_count_mappings() {
    let mut c = MappingCounters::new();
    assert_eq!((c.total_mapped_memory(), c.active_mappings()), (0, 0));
    c.mapped(4096);
    c.mapped(100);
    assert_eq!((c.total_mapped_memory(), c.active_mappings()), (4196, 2));
    c.unmapped(4096);
    assert_eq!((c.total_mapped_memory(), c.active_mappings()), (100, 1));
    c.unmapped(100);
    assert_eq!(c, MappingCounters::new());
    c.unmapped(1);
    assert_eq!((c.total_mapped_memory(), c.active_mappings()), (usize::MAX, usize::MAX));
    c.mapped(1);
    assert_eq!(c, MappingCounters::new());
    c.mapped(usize::MAX);
    c.mapped(2);
    assert_eq!(c.total_mapped_memory(), 1);
}
