use membase::advanced::huge_pages::{default_huge_page_size, is_1gb_supported, is_supported};
use membase::advanced::numa::{current_node, node_count, node_path, preferred_node};
use membase::advanced::{has_huge_page_support, has_numa_support};
use membase::columnar::{CompressionType, Storage, StorageOptions};
use membase::error::decimal;
use membase::platform::Platform;
use membase::{Error, ErrorKind, HugePageSize};

const MEMINFO: &str = "MemTotal:       16316412 kB\n\
MemFree:         1234567 kB\n\
AnonHugePages:         0 kB\n\
HugePages_Total:      12\n\
HugePages_Free:       12\n\
Hugepagesize:       2048 kB\n\
Hugetlb:           24576 kB\n";

#[test]
fn huge_pages_are_read_from_the_memory_report() {
    assert!(is_supported(Platform::Linux, MEMINFO.as_bytes()));
    assert!(has_huge_page_support(Platform::Linux, MEMINFO.as_bytes()));
    assert!(!is_supported(Platform::MacOs, MEMINFO.as_bytes()));
    assert!(!is_supported(Platform::Windows, MEMINFO.as_bytes()));
    let none = MEMINFO.replace("HugePages_Total:      12", "HugePages_Total:       0");
    assert!(!is_supported(Platform::Linux, none.as_bytes()));
    assert!(!is_supported(Platform::Linux, b""));
    assert!(!is_supported(Platform::Linux, b"MemTotal: 5 kB\n"));
    assert!(!is_supported(Platform::Linux, b"HugePages_Total:\n"));
    assert!(!is_supported(Platform::Linux, b"HugePages_Total: x\n"));
    assert!(is_supported(Platform::Linux, b"HugePages_Total:1"));
    assert!(is_supported(Platform::Linux, b"HugePages_Total:\t 007\n"));
    assert!(is_supported(Platform::Linux, b"HugePages_Total: 99999999999999999999999\n"));
    // the label must begin its line
    assert!(!is_supported(Platform::Linux, b"XHugePages_Total: 5\n"));
    assert!(is_supported(Platform::Linux, b"XHugePages_Total: 0\nHugePages_Total: 5\n"));
    // the first line with the label counts
    assert!(!is_supported(Platform::Linux, b"HugePages_Total: 0\nHugePages_Total: 5\n"));
}

#[test]
fn default_huge_page_sizes() {
    assert_eq!(
        default_huge_page_size(Platform::Linux, MEMINFO.as_bytes()),
        Some(HugePageSize::TwoMB)
    );
    let big = MEMINFO.replace("2048 kB", "1048576 kB");
    assert_eq!(default_huge_page_size(Platform::Linux, big.as_bytes()), Some(HugePageSize::OneGB));
    let bigger = MEMINFO.replace("2048 kB", "2097152 kB");
    assert_eq!(
        default_huge_page_size(Platform::Linux, bigger.as_bytes()),
        Some(HugePageSize::OneGB)
    );
    let below = MEMINFO.replace("2048 kB", "1048575 kB");
    assert_eq!(
        default_huge_page_size(Platform::Linux, below.as_bytes()),
        Some(HugePageSize::TwoMB)
    );
    assert_eq!(default_huge_page_size(Platform::Linux, b""), Some(HugePageSize::TwoMB));
    assert_eq!(default_huge_page_size(Platform::Windows, b""), Some(HugePageSize::TwoMB));
    assert_eq!(default_huge_page_size(Platform::MacOs, MEMINFO.as_bytes()), None);
}

#[test]
fn gigabyte_pages_are_counted_in_a_file_of_their_own() {
    assert!(is_1gb_supported(Platform::Linux, b"4\n"));
    assert!(is_1gb_supported(Platform::Linux, b"  12 \r\n"));
    assert!(is_1gb_supported(Platform::Linux, b"1"));
    assert!(!is_1gb_supported(Platform::Linux, b"0\n"));
    assert!(!is_1gb_supported(Platform::Linux, b""));
    assert!(!is_1gb_supported(Platform::Linux, b"\n"));
    assert!(!is_1gb_supported(Platform::Linux, b"4 pages\n"));
    assert!(!is_1gb_supported(Platform::Linux, b"x4\n"));
    assert!(!is_1gb_supported(Platform::Linux, b"-4\n"));
    assert!(!is_1gb_supported(Platform::Windows, b"4\n"));
}

#[test]
fn numa_nodes() {
    assert!(has_numa_support(Platform::Linux, true));
    assert!(!has_numa_support(Platform::Linux, false));
    assert!(!has_numa_support(Platform::MacOs, true));
    assert_eq!(node_count(Platform::Linux, &[]), 0);
    assert_eq!(node_count(Platform::Linux, &[true, true, false, true]), 2);
    assert_eq!(node_count(Platform::Linux, &[true, true, true]), 3);
    assert_eq!(node_count(Platform::Linux, &[false, true]), 0);
    assert_eq!(node_count(Platform::Windows, &[true, true]), 1);
    assert_eq!(node_count(Platform::MacOs, &[]), 1);
    assert_eq!(current_node(Platform::Linux), Some(0));
    assert_eq!(current_node(Platform::MacOs), None);
    assert_eq!(preferred_node(Platform::Linux), Some(0));
    assert_eq!(preferred_node(Platform::Windows), None);
    assert_eq!(node_path(0), "/sys/devices/system/node/node0");
    assert_eq!(node_path(17), "/sys/devices/system/node/node17");
}

#[test]
fn numbers_in_decimal() {
    assert_eq!(decimal(0), "0");
    assert_eq!(decimal(7), "7");
    assert_eq!(decimal(10), "10");
    assert_eq!(decimal(-1), "-1");
    assert_eq!(decimal(1234567890), "1234567890");
    assert_eq!(decimal(i32::MAX), i32::MAX.to_string());
    assert_eq!(decimal(i32::MIN), i32::MIN.to_string());
}

#[test]
fn error_messages() {
    assert_eq!(Error::ZeroSizedMapping.message(), "Memory map size cannot be zero");
    assert_eq!(
        Error::SizeExceedsSystemLimit.message(),
        "Requested memory map size exceeds system limits"
    );
    assert_eq!(Error::HugePageAllocationFailed.message(), "Failed to allocate huge pages");
    assert_eq!(Error::NumaAllocationFailed.message(), "NUMA memory allocation failed");
    assert_eq!(Error::ProtectionError.message(), "Memory protection error");
    assert_eq!(Error::AlignmentError.message(), "Memory alignment error");
    assert_eq!(
        Error::InvalidArgument("Column is not nullable".to_string()).message(),
        "Invalid argument: Column is not nullable"
    );
    assert_eq!(Error::PlatformError(-38).message(), "Platform-specific error code: -38");
    assert_eq!(Error::Io(Some(12)).message(), "I/O error: os error 12");
    assert_eq!(Error::Io(None).message(), "I/O error");
    assert_eq!(Error::Io(None).kind(), ErrorKind::Io);
    assert_eq!(Error::AlignmentError.kind(), ErrorKind::AlignmentError);
    assert_eq!(Error::InvalidArgument(String::new()).kind(), ErrorKind::InvalidArgument);
    assert_eq!(Error::PlatformError(1).kind(), ErrorKind::PlatformError);
}

#[test]
fn storage_options() {
    let o = StorageOptions::default();
    assert_eq!(o.base_dir, "db");
    assert_eq!(o.compression, CompressionType::Uncompressed);
    assert!(o.create_dirs);
    assert!(o.use_mmap);
    let s = Storage::new(o);
    assert_eq!(s.options().base_dir, "db");
    assert!(s.must_create_base_dir(false));
    assert!(!s.must_create_base_dir(true));
    let s = Storage::new(StorageOptions {
        base_dir: "x".to_string(),
        compression: CompressionType::LZ4,
        create_dirs: false,
        use_mmap: false,
    });
    assert!(!s.must_create_base_dir(false));
    assert_eq!(s.options().compression, CompressionType::LZ4);
    let copy = s.options().clone();
    assert_eq!(copy.base_dir, "x");
    assert!(!copy.use_mmap);
}
