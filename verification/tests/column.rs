use membase::columnar::header::{ColumnHeader, HEADER_SIZE};
use membase::columnar::{Column, ColumnBuilder, CompressionType, DataType, Field};
use membase::Error;

fn builder(data_type: DataType, nullable: bool) -> ColumnBuilder {
    ColumnBuilder::new(Field::new("c", data_type, nullable), CompressionType::Uncompressed)
}

fn le64(bytes: &[u8], at: usize) -> u64 {
    let mut v: u64 = 0;
    for k in 0..8 {
        v |= (bytes[at + k] as u64) << (8 * k);
    }
    v
}

#[test]
fn nullable_u8_column_round_trip() {
    let mut b = builder(DataType::UInt8, true);
    b.append_u8(1).unwrap();
    b.append_null().unwrap();
    b.append_u8(3).unwrap();
    b.append_null().unwrap();
    b.append_u8(5).unwrap();
    let bytes = b.to_bytes().unwrap();
    let c = Column::open(&bytes).unwrap();
    assert_eq!(c.row_count(), 5);
    let got: Vec<Option<u8>> = (0..5).map(|i| c.get_u8(i)).collect();
    assert_eq!(got, vec![Some(1), None, Some(3), None, Some(5)]);
    assert_eq!(bytes[HEADER_SIZE], 0b0000_1010);
    assert!(c.is_nullable());
    assert!(!c.is_null(0));
    assert!(c.is_null(1));
    assert!(c.is_null(3));
    assert!(!c.is_null(4));
    assert!(!c.is_null(5));
}

#[test]
fn string_column_round_trip_and_offsets() {
    let mut b = builder(DataType::String, false);
    b.append_string("alice").unwrap();
    b.append_string("").unwrap();
    b.append_string("charlie").unwrap();
    let bytes = b.to_bytes().unwrap();
    let c = Column::open(&bytes).unwrap();
    assert_eq!(c.row_count(), 3);
    assert_eq!(c.get_string(0), Some("alice"));
    assert_eq!(c.get_string(1), Some(""));
    assert_eq!(c.get_string(2), Some("charlie"));
    assert_eq!(c.get_string(3), None);
    let offsets: Vec<u64> = (0..4).map(|i| le64(&bytes, HEADER_SIZE + 8 * i)).collect();
    assert_eq!(offsets, vec![0, 5, 5, 12]);
    assert_eq!(&bytes[HEADER_SIZE + 32..], b"alicecharlie");
}

#[test]
fn offsets_differ_by_the_length_of_the_row() {
    let values: [Option<&str>; 6] = [Some("ab"), None, Some(""), Some("cdefg"), None, Some("h")];
    let mut b = builder(DataType::String, true);
    for v in values {
        match v {
            Some(s) => b.append_string(s).unwrap(),
            None => b.append_null().unwrap(),
        }
    }
    let bytes = b.to_bytes().unwrap();
    let offsets_at = le64(&bytes, 72) as usize;
    assert_eq!(le64(&bytes, 80), 8 * 7);
    let offsets: Vec<u64> = (0..7).map(|i| le64(&bytes, offsets_at + 8 * i)).collect();
    assert_eq!(offsets, vec![0, 2, 2, 2, 7, 7, 8]);
    for (i, v) in values.iter().enumerate() {
        assert!(offsets[i] <= offsets[i + 1]);
        assert_eq!(offsets[i + 1] - offsets[i], v.map(|s| s.len() as u64).unwrap_or(0));
    }
    assert_eq!(offsets[6], le64(&bytes, 48));
    let c = Column::open(&bytes).unwrap();
    for (i, v) in values.iter().enumerate() {
        assert_eq!(c.get_string(i as u64), *v);
    }
}

#[test]
fn header_layout_of_a_written_file() {
    let mut b = builder(DataType::String, true);
    b.append_string("ab").unwrap();
    b.append_null().unwrap();
    b.append_string("cde").unwrap();
    let bytes = b.to_bytes().unwrap();
    assert_eq!(&bytes[0..8], b"ULTRACOL");
    assert_eq!(&bytes[8..12], &[1, 0, 0, 0]);
    assert_eq!(le64(&bytes, 16), 3);
    assert_eq!(&bytes[24..28], &[12, 0, 0, 0]);
    assert_eq!(bytes[28], 1);
    assert_eq!(&bytes[32..36], &[0, 0, 0, 0]);
    assert_eq!(le64(&bytes, 40), 112 + 1 + 32);
    assert_eq!(le64(&bytes, 48), 5);
    assert_eq!(le64(&bytes, 56), 112);
    assert_eq!(le64(&bytes, 64), 1);
    assert_eq!(le64(&bytes, 72), 113);
    assert_eq!(le64(&bytes, 80), 32);
    assert_eq!(&bytes[88..112], &[0u8; 24]);
    assert_eq!(bytes.len(), 112 + 1 + 32 + 5);
    assert_eq!(bytes[112], 0b0000_0010);
    let h = ColumnHeader::read(&bytes).unwrap();
    assert_eq!(h.row_count, 3);
    assert_eq!(h.data_offset, 145);
    let c = Column::open(&bytes).unwrap();
    assert_eq!(c.get_string(0), Some("ab"));
    assert_eq!(c.get_string(1), None);
    assert_eq!(c.get_string(2), Some("cde"));
    assert_eq!(c.get_bytes(1), None);
}

#[test]
fn header_written_and_read_back() {
    let h = ColumnHeader {
        version: 1,
        row_count: 0x0102_0304_0506_0708,
        data_type: 0x0001_0010,
        nullable: 7,
        compression: 3,
        data_offset: 112,
        data_size: 99,
        null_bitmap_offset: 1,
        null_bitmap_size: 2,
        offsets_offset: 3,
        offsets_size: u64::MAX,
    };
    let mut out = vec![0xEEu8];
    h.write(&mut out);
    assert_eq!(out.len(), 113);
    assert_eq!(out[0], 0xEE);
    assert_eq!(&out[17..25], &[8, 7, 6, 5, 4, 3, 2, 1]);
    assert_eq!(ColumnHeader::read(&out[1..]), Some(h));
    assert_eq!(ColumnHeader::read(&out[1..112]), None);
    let mut bad = out[1..].to_vec();
    bad[7] = b'X';
    assert_eq!(ColumnHeader::read(&bad), None);
}

#[test]
fn type_tags() {
    assert_eq!(ColumnHeader::data_type_to_u32(&DataType::Boolean), Some(1));
    assert_eq!(ColumnHeader::data_type_to_u32(&DataType::Timestamp), Some(15));
    assert_eq!(ColumnHeader::data_type_to_u32(&DataType::FixedBinary(5)), Some(16 | (5 << 8)));
    assert_eq!(
        ColumnHeader::data_type_to_u32(&DataType::Decimal(10, 2)),
        Some(17 | (10 << 8) | (2 << 16))
    );
    assert_eq!(ColumnHeader::data_type_to_u32(&DataType::FixedBinary(1 << 24)), None);
    assert_eq!(ColumnHeader::data_type_to_u32(&DataType::Decimal(256, 0)), None);
    assert_eq!(ColumnHeader::u32_to_data_type(12), Some(DataType::String));
    assert_eq!(ColumnHeader::u32_to_data_type(16 | (5 << 8)), Some(DataType::FixedBinary(5)));
    assert_eq!(
        ColumnHeader::u32_to_data_type(17 | (10 << 8) | (2 << 16)),
        Some(DataType::Decimal(10, 2))
    );
    assert_eq!(ColumnHeader::u32_to_data_type(0), None);
    assert_eq!(ColumnHeader::u32_to_data_type(18), None);
    assert_eq!(ColumnHeader::u32_to_data_type(0x1_01), Some(DataType::Boolean));
    let all = [
        DataType::Boolean,
        DataType::Int8,
        DataType::UInt8,
        DataType::Int16,
        DataType::UInt16,
        DataType::Int32,
        DataType::UInt32,
        DataType::Int64,
        DataType::UInt64,
        DataType::Float32,
        DataType::Float64,
        DataType::String,
        DataType::Binary,
        DataType::Date,
        DataType::Timestamp,
        DataType::FixedBinary(0xFF_FFFF),
        DataType::Decimal(255, 255),
    ];
    for t in all {
        let tag = ColumnHeader::data_type_to_u32(&t).unwrap();
        assert_eq!(ColumnHeader::u32_to_data_type(tag), Some(t));
    }
}

#[test]
fn every_integer_type_round_trips() {
    let mut b = builder(DataType::Int8, false);
    for v in [i8::MIN, -1, 0, 1, i8::MAX] {
        b.append_i8(v).unwrap();
    }
    let bytes = b.to_bytes().unwrap();
    let c = Column::open(&bytes).unwrap();
    assert_eq!(c.get_i8(0), Some(i8::MIN));
    assert_eq!(c.get_i8(1), Some(-1));
    assert_eq!(c.get_i8(4), Some(i8::MAX));
    assert_eq!(c.get_bytes(1), Some(&[0xFFu8][..]));

    let mut b = builder(DataType::Int16, false);
    for v in [i16::MIN, -2, 0, 258, i16::MAX] {
        b.append_i16(v).unwrap();
    }
    let bytes = b.to_bytes().unwrap();
    let c = Column::open(&bytes).unwrap();
    assert_eq!(c.get_i16(0), Some(i16::MIN));
    assert_eq!(c.get_i16(1), Some(-2));
    assert_eq!(c.get_i16(3), Some(258));
    assert_eq!(c.get_bytes(3), Some(&[2u8, 1][..]));
    assert_eq!(c.get_bytes(1), Some(&[0xFEu8, 0xFF][..]));
    assert_eq!(c.get_i16(4), Some(i16::MAX));

    let mut b = builder(DataType::UInt16, false);
    b.append_u16(0xABCD).unwrap();
    let bytes = b.to_bytes().unwrap();
    let c = Column::open(&bytes).unwrap();
    assert_eq!(c.get_u16(0), Some(0xABCD));
    assert_eq!(c.get_bytes(0), Some(&[0xCDu8, 0xAB][..]));

    let mut b = builder(DataType::Int32, false);
    for v in [i32::MIN, -3, 0x0102_0304, i32::MAX] {
        b.append_i32(v).unwrap();
    }
    let bytes = b.to_bytes().unwrap();
    let c = Column::open(&bytes).unwrap();
    assert_eq!(c.get_i32(0), Some(i32::MIN));
    assert_eq!(c.get_i32(1), Some(-3));
    assert_eq!(c.get_i32(2), Some(0x0102_0304));
    assert_eq!(c.get_bytes(2), Some(&[4u8, 3, 2, 1][..]));
    assert_eq!(c.get_i32(3), Some(i32::MAX));

    let mut b = builder(DataType::UInt32, false);
    b.append_u32(u32::MAX).unwrap();
    b.append_u32(7).unwrap();
    let bytes = b.to_bytes().unwrap();
    let c = Column::open(&bytes).unwrap();
    assert_eq!(c.get_u32(0), Some(u32::MAX));
    assert_eq!(c.get_u32(1), Some(7));

    let mut b = builder(DataType::Int64, false);
    for v in [i64::MIN, -4, 0, i64::MAX] {
        b.append_i64(v).unwrap();
    }
    let bytes = b.to_bytes().unwrap();
    let c = Column::open(&bytes).unwrap();
    assert_eq!(c.get_i64(0), Some(i64::MIN));
    assert_eq!(c.get_i64(1), Some(-4));
    assert_eq!(c.get_bytes(1), Some(&(-4i64).to_le_bytes()[..]));
    assert_eq!(c.get_i64(3), Some(i64::MAX));

    let mut b = builder(DataType::UInt64, false);
    b.append_u64(u64::MAX).unwrap();
    b.append_u64(0x0102_0304_0506_0708).unwrap();
    let bytes = b.to_bytes().unwrap();
    let c = Column::open(&bytes).unwrap();
    assert_eq!(c.get_u64(0), Some(u64::MAX));
    assert_eq!(c.get_u64(1), Some(0x0102_0304_0506_0708));
    assert_eq!(c.get_bytes(1), Some(&[8u8, 7, 6, 5, 4, 3, 2, 1][..]));
    assert_eq!(c.get_u64(2), None);
}

#[test]
fn bool_date_timestamp_and_float_bits_round_trip() {
    let mut b = builder(DataType::Boolean, true);
    b.append_bool(true).unwrap();
    b.append_bool(false).unwrap();
    b.append_null().unwrap();
    let bytes = b.to_bytes().unwrap();
    let c = Column::open(&bytes).unwrap();
    assert_eq!(c.get_bool(0), Some(true));
    assert_eq!(c.get_bool(1), Some(false));
    assert_eq!(c.get_bool(2), None);

    let mut b = builder(DataType::Date, false);
    b.append_date(-19000).unwrap();
    let bytes = b.to_bytes().unwrap();
    let c = Column::open(&bytes).unwrap();
    assert_eq!(c.get_date(0), Some(-19000));
    assert_eq!(c.get_i32(0), None);

    let mut b = builder(DataType::Timestamp, false);
    b.append_timestamp(1625097600000).unwrap();
    let bytes = b.to_bytes().unwrap();
    let c = Column::open(&bytes).unwrap();
    assert_eq!(c.get_timestamp(0), Some(1625097600000));

    let mut b = builder(DataType::Float32, false);
    b.append_f32_bits(1.5f32.to_bits()).unwrap();
    let bytes = b.to_bytes().unwrap();
    let c = Column::open(&bytes).unwrap();
    assert_eq!(c.get_f32_bits(0).map(f32::from_bits), Some(1.5f32));
    assert_eq!(c.get_bytes(0), Some(&1.5f32.to_le_bytes()[..]));

    let mut b = builder(DataType::Float64, false);
    b.append_f64_bits((-2.25f64).to_bits()).unwrap();
    let bytes = b.to_bytes().unwrap();
    let c = Column::open(&bytes).unwrap();
    assert_eq!(c.get_f64_bits(0).map(f64::from_bits), Some(-2.25f64));
    assert_eq!(c.get_f32_bits(0), None);
}

#[test]
fn binary_columns_round_trip() {
    let mut b = builder(DataType::Binary, true);
    b.append_binary(&[1, 2, 3]).unwrap();
    b.append_null().unwrap();
    b.append_binary(&[]).unwrap();
    b.append_binary(&[0xFF, 0x00]).unwrap();
    let bytes = b.to_bytes().unwrap();
    let c = Column::open(&bytes).unwrap();
    assert_eq!(c.get_binary(0), Some(&[1u8, 2, 3][..]));
    assert_eq!(c.get_binary(1), None);
    assert_eq!(c.get_binary(2), Some(&[][..]));
    assert_eq!(c.get_binary(3), Some(&[0xFFu8, 0][..]));
    assert_eq!(c.get_string(0), None);

    let mut b = builder(DataType::FixedBinary(3), true);
    b.append_binary(&[1, 2, 3]).unwrap();
    b.append_null().unwrap();
    b.append_binary(&[4, 5, 6]).unwrap();
    let bytes = b.to_bytes().unwrap();
    assert_eq!(&bytes[113..], &[1, 2, 3, 0, 0, 0, 4, 5, 6]);
    let c = Column::open(&bytes).unwrap();
    assert_eq!(c.data_type(), DataType::FixedBinary(3));
    assert_eq!(c.get_binary(0), Some(&[1u8, 2, 3][..]));
    assert_eq!(c.get_binary(1), None);
    assert_eq!(c.get_binary(2), Some(&[4u8, 5, 6][..]));
    assert_eq!(c.get_bytes(2), Some(&[4u8, 5, 6][..]));
}

#[test]
fn fixed_binary_of_wrong_length_is_rejected() {
    let mut b = builder(DataType::FixedBinary(4), false);
    assert!(matches!(b.append_binary(&[1, 2, 3]), Err(Error::InvalidArgument(_))));
    assert!(matches!(b.append_binary(&[1, 2, 3, 4, 5]), Err(Error::InvalidArgument(_))));
    assert_eq!(b.row_count(), 0);
    b.append_binary(&[1, 2, 3, 4]).unwrap();
    assert_eq!(b.row_count(), 1);
}

#[test]
fn append_of_another_type_is_rejected() {
    let mut b = builder(DataType::UInt8, false);
    assert!(matches!(b.append_u16(1), Err(Error::InvalidArgument(_))));
    assert!(matches!(b.append_i8(1), Err(Error::InvalidArgument(_))));
    assert!(matches!(b.append_bool(true), Err(Error::InvalidArgument(_))));
    assert!(matches!(b.append_string("x"), Err(Error::InvalidArgument(_))));
    assert!(matches!(b.append_binary(&[1]), Err(Error::InvalidArgument(_))));
    assert!(matches!(b.append_date(1), Err(Error::InvalidArgument(_))));
    assert!(matches!(b.append_timestamp(1), Err(Error::InvalidArgument(_))));
    assert!(matches!(b.append_u32(1), Err(Error::InvalidArgument(_))));
    assert!(matches!(b.append_i16(1), Err(Error::InvalidArgument(_))));
    assert!(matches!(b.append_i32(1), Err(Error::InvalidArgument(_))));
    assert!(matches!(b.append_i64(1), Err(Error::InvalidArgument(_))));
    assert!(matches!(b.append_u64(1), Err(Error::InvalidArgument(_))));
    assert!(matches!(b.append_f32_bits(1), Err(Error::InvalidArgument(_))));
    assert!(matches!(b.append_f64_bits(1), Err(Error::InvalidArgument(_))));
    assert_eq!(b.row_count(), 0);
}

#[test]
fn null_in_a_column_that_is_not_nullable_is_rejected() {
    let mut b = builder(DataType::UInt8, false);
    assert!(matches!(b.append_null(), Err(Error::InvalidArgument(_))));
    assert_eq!(b.row_count(), 0);
}

#[test]
fn row_count_counts_appends() {
    let mut b = builder(DataType::UInt32, true);
    for k in 0..20u32 {
        assert_eq!(b.row_count(), k as u64);
        if k % 3 == 0 {
            b.append_null().unwrap();
        } else {
            b.append_u32(k * 10).unwrap();
        }
    }
    let bytes = b.to_bytes().unwrap();
    let c = Column::open(&bytes).unwrap();
    assert_eq!(c.row_count(), 20);
    for k in 0..20u64 {
        if k % 3 == 0 {
            assert_eq!(c.get_u32(k), None);
            assert!(c.is_null(k));
        } else {
            assert_eq!(c.get_u32(k), Some(k as u32 * 10));
        }
    }
    assert_eq!(bytes.len(), 112 + 3 + 80);
    assert_eq!(&bytes[112..115], &[0b0100_1001, 0b1001_0010, 0b0000_0100]);
}

#[test]
fn fixed_width_bytes_lie_at_row_times_width() {
    let mut b = builder(DataType::UInt32, false);
    for k in 0..5u32 {
        b.append_u32(0x1111_1111 * k).unwrap();
    }
    let bytes = b.to_bytes().unwrap();
    let c = Column::open(&bytes).unwrap();
    for i in 0..5usize {
        let got = c.get_bytes(i as u64).unwrap();
        assert_eq!(got.len(), 4);
        assert_eq!(got, &bytes[112 + 4 * i..112 + 4 * i + 4]);
    }
}

#[test]
fn empty_columns_open() {
    for nullable in [false, true] {
        for t in [DataType::UInt64, DataType::String] {
            let b = builder(t, nullable);
            let bytes = b.to_bytes().unwrap();
            let c = Column::open(&bytes).unwrap();
            assert_eq!(c.row_count(), 0);
            assert_eq!(c.get_bytes(0), None);
            assert_eq!(c.is_nullable(), nullable);
            assert_eq!(c.data_type(), t);
            assert_eq!(c.compression(), CompressionType::Uncompressed);
        }
    }
}

#[test]
fn compression_tag_is_kept() {
    let b = ColumnBuilder::new(Field::new("c", DataType::UInt8, false), CompressionType::Zstd);
    let bytes = b.to_bytes().unwrap();
    assert_eq!(&bytes[32..36], &[2, 0, 0, 0]);
    let c = Column::open(&bytes).unwrap();
    assert_eq!(c.compression(), CompressionType::Zstd);
}

#[test]
fn type_without_tag_cannot_be_written() {
    let b = builder(DataType::FixedBinary(1 << 24), false);
    assert!(matches!(b.to_bytes(), Err(Error::InvalidArgument(_))));
    let b = builder(DataType::Decimal(300, 1), false);
    assert!(matches!(b.to_bytes(), Err(Error::InvalidArgument(_))));
}

fn valid_file() -> Vec<u8> {
    let mut b = builder(DataType::String, true);
    b.append_string("hello").unwrap();
    b.append_null().unwrap();
    b.to_bytes().unwrap()
}

#[test]
fn open_rejects_damaged_files() {
    let good = valid_file();
    assert!(Column::open(&good).is_ok());

    assert!(matches!(Column::open(&good[..111]), Err(Error::InvalidArgument(_))));
    assert!(matches!(Column::open(&[]), Err(Error::InvalidArgument(_))));

    let mut f = good.clone();
    f[0] = b'X';
    assert!(matches!(Column::open(&f), Err(Error::InvalidArgument(_))));

    let mut f = good.clone();
    f[8] = 2;
    assert!(matches!(Column::open(&f), Err(Error::InvalidArgument(_))));

    let mut f = good.clone();
    f[24] = 0;
    assert!(matches!(Column::open(&f), Err(Error::InvalidArgument(_))));
    let mut f = good.clone();
    f[24] = 18;
    assert!(matches!(Column::open(&f), Err(Error::InvalidArgument(_))));

    let mut f = good.clone();
    f[32] = 8;
    assert!(matches!(Column::open(&f), Err(Error::InvalidArgument(_))));

    let mut f = good.clone();
    f[48] = f[48] + 1;
    assert!(matches!(Column::open(&f), Err(Error::InvalidArgument(_))));
    let mut f = good.clone();
    f[47] = 0xFF;
    assert!(matches!(Column::open(&f), Err(Error::InvalidArgument(_))));

    let mut f = good.clone();
    f[28] = 0;
    assert!(matches!(Column::open(&f), Err(Error::InvalidArgument(_))));
    let mut f = good.clone();
    f[64] = 2;
    assert!(matches!(Column::open(&f), Err(Error::InvalidArgument(_))));

    let mut f = good.clone();
    f[80] = 16;
    assert!(matches!(Column::open(&f), Err(Error::InvalidArgument(_))));
    let mut f = good.clone();
    f[80] = 0;
    assert!(matches!(Column::open(&f), Err(Error::InvalidArgument(_))));

    let mut f = good.clone();
    f[24] = 3;
    assert!(matches!(Column::open(&f), Err(Error::InvalidArgument(_))));
}

#[test]
fn rows_outside_the_file_read_as_absent() {
    let mut f = valid_file();
    // the end of the first string is moved behind the data section
    f[113 + 8] = 200;
    let c = Column::open(&f).unwrap();
    assert_eq!(c.get_bytes(0), None);
    assert_eq!(c.get_string(0), None);

    let mut f = valid_file();
    // the null bitmap is moved behind the end of the file
    f[57] = 0xFF;
    let c = Column::open(&f).unwrap();
    assert!(!c.is_null(1));

    let mut b = builder(DataType::UInt32, false);
    b.append_u32(1).unwrap();
    b.append_u32(2).unwrap();
    let mut f = b.to_bytes().unwrap();
    // three rows are claimed, two are there
    f[16] = 3;
    let c = Column::open(&f).unwrap();
    assert_eq!(c.row_count(), 3);
    assert_eq!(c.get_u32(1), Some(2));
    assert_eq!(c.get_u32(2), None);
}

#[test]
fn invalid_utf8_reads_as_no_string() {
    let mut f = valid_file();
    let n = f.len();
    f[n - 5] = 0xFF;
    let c = Column::open(&f).unwrap();
    assert_eq!(c.get_string(0), None);
    assert_eq!(c.get_bytes(0), Some(&[0xFFu8, b'e', b'l', b'l', b'o'][..]));
}

#[test]
fn non_ascii_strings_round_trip() {
    let mut b = builder(DataType::String, false);
    b.append_string("grüße").unwrap();
    b.append_string("日本語").unwrap();
    let bytes = b.to_bytes().unwrap();
    let c = Column::open(&bytes).unwrap();
    assert_eq!(c.get_string(0), Some("grüße"));
    assert_eq!(c.get_string(1), Some("日本語"));
    assert_eq!(c.get_bytes(1).map(|b| b.len()), Some(9));
}

#[test]
fn reopening_gives_the_same_answers() {
    let bytes = valid_file();
    let first = Column::open(&bytes).unwrap();
    let a: Vec<Option<Vec<u8>>> =
        (0..3).map(|i| first.get_bytes(i).map(|b| b.to_vec())).collect();
    drop(first);
    let second = Column::open(&bytes).unwrap();
    let b: Vec<Option<Vec<u8>>> =
        (0..3).map(|i| second.get_bytes(i).map(|b| b.to_vec())).collect();
    assert_eq!(a, b);
    assert_eq!(a, vec![Some(b"hello".to_vec()), None, None]);
}

#[test]
fn iterator_gives_every_row_once() {
    let mut b = builder(DataType::UInt8, true);
    b.append_u8(9).unwrap();
    b.append_null().unwrap();
    b.append_u8(7).unwrap();
    let bytes = b.to_bytes().unwrap();
    let c = Column::open(&bytes).unwrap();
    let mut it = c.iter();
    assert_eq!(it.size_hint(), (3, Some(3)));
    assert_eq!(it.remaining(), 3);
    assert_eq!(it.next(), Some(Some(&[9u8][..])));
    assert_eq!(it.next(), Some(None));
    assert_eq!(it.size_hint(), (1, Some(1)));
    assert_eq!(it.next(), Some(Some(&[7u8][..])));
    assert_eq!(it.next(), None);
    assert_eq!(it.next(), None);
    assert_eq!(it.size_hint(), (0, Some(0)));
    let mut again = c.iter();
    assert_eq!(again.next(), Some(Some(&[9u8][..])));
}

#[test]
fn getter_of_another_type_gives_nothing() {
    let mut b = builder(DataType::UInt64, false);
    b.append_u64(5).unwrap();
    let bytes = b.to_bytes().unwrap();
    let c = Column::open(&bytes).unwrap();
    assert_eq!(c.get_u64(0), Some(5));
    assert_eq!(c.get_i64(0), None);
    assert_eq!(c.get_timestamp(0), None);
    assert_eq!(c.get_f64_bits(0), None);
    assert_eq!(c.get_u8(0), None);
    assert_eq!(c.get_bool(0), None);
    assert_eq!(c.get_string(0), None);
    assert_eq!(c.get_binary(0), None);
}
