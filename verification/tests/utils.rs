use membase::columnar::encoding::{decode_signed, encode_signed, read_uint_le, write_uint_le};
use membase::utils::metrics::{
    get_stats, record_operation, reset_stats, MemoryStats, Operation, OperationTotals,
};
use membase::utils::text::{
    bytes_contain_text, bytes_eq, bytes_less, bytes_less_or_equal, str_eq,
};

#[test]
fn little_endian_integers() {
    let mut out = vec![9u8];
    write_uint_le(&mut out, 0x0102_0304_0506_0708, 8);
    write_uint_le(&mut out, 0xABCD, 2);
    write_uint_le(&mut out, 0x1FF, 1);
    write_uint_le(&mut out, 5, 0);
    assert_eq!(out, vec![9, 8, 7, 6, 5, 4, 3, 2, 1, 0xCD, 0xAB, 0xFF]);
    assert_eq!(read_uint_le(&out, 1, 8), 0x0102_0304_0506_0708);
    assert_eq!(read_uint_le(&out, 9, 2), 0xABCD);
    assert_eq!(read_uint_le(&out, 11, 1), 0xFF);
    assert_eq!(read_uint_le(&out, 3, 0), 0);
    assert_eq!(read_uint_le(&out, 1, 4), 0x0506_0708);
}

#[test]
fn twos_complement() {
    assert_eq!(encode_signed(-1, 1), 0xFF);
    assert_eq!(encode_signed(-128, 1), 0x80);
    assert_eq!(encode_signed(127, 1), 0x7F);
    assert_eq!(encode_signed(-2, 2), 0xFFFE);
    assert_eq!(encode_signed(-1, 4), 0xFFFF_FFFF);
    assert_eq!(encode_signed(i64::MIN, 8), 0x8000_0000_0000_0000);
    assert_eq!(encode_signed(-1, 8), u64::MAX);
    assert_eq!(decode_signed(0xFF, 1), -1);
    assert_eq!(decode_signed(0x80, 1), -128);
    assert_eq!(decode_signed(0x7F, 1), 127);
    assert_eq!(decode_signed(0x8000, 2), -32768);
    assert_eq!(decode_signed(0x7FFF_FFFF, 4), i32::MAX as i64);
    assert_eq!(decode_signed(0x8000_0000, 4), i32::MIN as i64);
    assert_eq!(decode_signed(u64::MAX, 8), -1);
    assert_eq!(decode_signed(0x8000_0000_0000_0000, 8), i64::MIN);
    assert_eq!(decode_signed(0x7FFF_FFFF_FFFF_FFFF, 8), i64::MAX);
}

#[test]
fn byte_strings_compare_like_slices() {
    let samples: [&[u8]; 8] =
        [b"", b"a", b"ab", b"abc", b"b", b"\x00", b"\xff", b"a\x00"];
    for a in samples {
        for b in samples {
            assert_eq!(bytes_less(a, b), a < b);
            assert_eq!(bytes_less_or_equal(a, b), a <= b);
            assert_eq!(bytes_eq(a, b), a == b);
        }
    }
}

#[test]
fn strings_compare_by_their_text() {
    assert!(str_eq("", ""));
    assert!(str_eq("grüße", "grüße"));
    assert!(!str_eq("a", "b"));
    assert!(!str_eq("a", "ab"));
}

#[test]
fn text_is_searched() {
    assert!(bytes_contain_text(b"hello world", b"lo w"));
    assert!(bytes_contain_text(b"hello", b""));
    assert!(bytes_contain_text(b"", b""));
    assert!(!bytes_contain_text(b"hello", b"world"));
    assert!(!bytes_contain_text(b"", b"a"));
    assert!(bytes_contain_text(b"hello", b"ell"));
    assert!(!bytes_contain_text(b"hello", b"elo"));
    assert!(!bytes_contain_text(&[0xFF, b'a'], b"a"));
    assert!(!bytes_contain_text(b"a", &[0xFF]));
    assert!(!bytes_contain_text(&[0xE6, 0x97], b""));
    assert!(!bytes_contain_text(&[0xC0, 0x80], b""));
    assert!(!bytes_contain_text(&[0xED, 0xA0, 0x80], b""));
    assert!(bytes_contain_text("日本語".as_bytes(), "本".as_bytes()));
    // the bytes of one character are no text
    assert!(!bytes_contain_text("日本語".as_bytes(), &"本".as_bytes()[0..1]));
}

#[test]
fn totals_and_statistics() {
    let mut t = OperationTotals::new();
    assert_eq!(
        get_stats(&t),
        MemoryStats {
            map_count: 0,
            unmap_count: 0,
            flush_count: 0,
            advise_count: 0,
            bytes_mapped: 0,
            bytes_unmapped: 0,
            bytes_flushed: 0,
            avg_map_time_us: 0,
            avg_unmap_time_us: 0,
            avg_flush_time_us: 0,
        }
    );
    record_operation(&mut t, Operation::MapFile, 4096, 10);
    record_operation(&mut t, Operation::MapAnon, 100, 21);
    record_operation(&mut t, Operation::Unmap, 4096, 7);
    record_operation(&mut t, Operation::Flush, 50, 3);
    record_operation(&mut t, Operation::Flush, 60, 4);
    record_operation(&mut t, Operation::Flush, 70, 6);
    record_operation(&mut t, Operation::Advise, 999, 999);
    let s = get_stats(&t);
    assert_eq!(s.map_count, 2);
    assert_eq!(s.bytes_mapped, 4196);
    assert_eq!(s.avg_map_time_us, 15);
    assert_eq!(s.unmap_count, 1);
    assert_eq!(s.bytes_unmapped, 4096);
    assert_eq!(s.avg_unmap_time_us, 7);
    assert_eq!(s.flush_count, 3);
    assert_eq!(s.bytes_flushed, 180);
    assert_eq!(s.avg_flush_time_us, 4);
    assert_eq!(s.advise_count, 1);
    assert_eq!(t.total_flush_time_us, 13);
    reset_stats(&mut t);
    assert_eq!(t, OperationTotals::new());
}

#[test]
fn totals_wrap_around() {
    let mut t = OperationTotals::new();
    t.bytes_mapped = u64::MAX;
    t.total_map_time_us = u64::MAX - 1;
    record_operation(&mut t, Operation::MapAnon, 2, 5);
    assert_eq!(t.bytes_mapped, 1);
    assert_eq!(t.total_map_time_us, 3);
    assert_eq!(t.map_count, 1);
}
