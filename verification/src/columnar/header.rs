//! The fixed header of a column file.
//!
//! A column file starts with 112 bytes, all integers little-endian:
//!
//! | bytes   | field                                   |
//! |---------|-----------------------------------------|
//! | 0..8    | the magic `ULTRACOL`                    |
//! | 8..12   | format version                          |
//! | 16..24  | row count                               |
//! | 24..28  | data-type tag                           |
//! | 28      | nullable flag                           |
//! | 32..36  | compression tag                         |
//! | 40..48  | offset of the data section              |
//! | 48..56  | size of the data section                |
//! | 56..64  | offset of the null bitmap               |
//! | 64..72  | size of the null bitmap                 |
//! | 72..80  | offset of the offsets array             |
//! | 80..88  | size of the offsets array               |
//! | 88..112 | reserved                                |
//!
//! The bytes between the fields and the reserved bytes are written as zero
//! and ignored when read.

use crate::columnar::compression::CompressionType;
use crate::columnar::encoding::{
    le_bytes, le_value, lemma_le_bytes_len, lemma_le_value_of_le_bytes, lemma_pow256_values,
    read_uint_le, write_uint_le,
};
use crate::columnar::schema::DataType;
use vstd::prelude::*;

verus! {

/// The number of bytes of a column header.
pub const HEADER_SIZE: usize = 112;

/// The format version that is written and recognised.
pub const FORMAT_VERSION: u32 = 1;

/// The eight bytes `ULTRACOL` that begin every column file.
pub open spec fn magic() -> Seq<u8> {
    seq![0x55u8, 0x4Cu8, 0x54u8, 0x52u8, 0x41u8, 0x43u8, 0x4Fu8, 0x4Cu8]
}

/// `n` zero bytes.
pub open spec fn zeros(n: nat) -> Seq<u8> {
    Seq::new(n, |i: int| 0u8)
}

/// The tag that stands for a data type in a header: the kind in the low byte,
/// the parameters above it. `None` where a parameter does not fit its place.
pub open spec fn type_tag(data_type: DataType) -> Option<u32> {
    match data_type {
        DataType::Boolean => Some(1u32),
        DataType::Int8 => Some(2u32),
        DataType::UInt8 => Some(3u32),
        DataType::Int16 => Some(4u32),
        DataType::UInt16 => Some(5u32),
        DataType::Int32 => Some(6u32),
        DataType::UInt32 => Some(7u32),
        DataType::Int64 => Some(8u32),
        DataType::UInt64 => Some(9u32),
        DataType::Float32 => Some(10u32),
        DataType::Float64 => Some(11u32),
        DataType::String => Some(12u32),
        DataType::Binary => Some(13u32),
        DataType::Date => Some(14u32),
        DataType::Timestamp => Some(15u32),
        DataType::FixedBinary(size) => if size < 0x100_0000 {
            Some((16 + size * 256) as u32)
        } else {
            None
        },
        DataType::Decimal(precision, scale) => if precision < 256 && scale < 256 {
            Some((17 + precision * 256 + scale * 65536) as u32)
        } else {
            None
        },
    }
}

/// The data type that a tag stands for; `None` where the low byte names no kind.
pub open spec fn type_of_tag(tag: u32) -> Option<DataType> {
    let kind = tag % 256;
    if kind == 1 {
        Some(DataType::Boolean)
    } else if kind == 2 {
        Some(DataType::Int8)
    } else if kind == 3 {
        Some(DataType::UInt8)
    } else if kind == 4 {
        Some(DataType::Int16)
    } else if kind == 5 {
        Some(DataType::UInt16)
    } else if kind == 6 {
        Some(DataType::Int32)
    } else if kind == 7 {
        Some(DataType::UInt32)
    } else if kind == 8 {
        Some(DataType::Int64)
    } else if kind == 9 {
        Some(DataType::UInt64)
    } else if kind == 10 {
        Some(DataType::Float32)
    } else if kind == 11 {
        Some(DataType::Float64)
    } else if kind == 12 {
        Some(DataType::String)
    } else if kind == 13 {
        Some(DataType::Binary)
    } else if kind == 14 {
        Some(DataType::Date)
    } else if kind == 15 {
        Some(DataType::Timestamp)
    } else if kind == 16 {
        Some(DataType::FixedBinary((tag / 256) as usize))
    } else if kind == 17 {
        Some(DataType::Decimal(((tag / 256) % 256) as usize, ((tag / 65536) % 256) as usize))
    } else {
        None
    }
}

/// A data type that has a tag is read back from it.
pub proof fn lemma_type_tag_round_trip(data_type: DataType)
    requires
        type_tag(data_type) is Some,
    ensures
        type_of_tag(type_tag(data_type).unwrap()) == Some(data_type),
{
}

/// The fields of a column header.
#[derive(Debug, Clone, Copy, PartialEq, Eq, Structural)]
pub struct ColumnHeader {
    /// Format version.
    pub version: u32,
    /// Number of rows.
    pub row_count: u64,
    /// Data-type tag.
    pub data_type: u32,
    /// Zero where the column holds no nulls.
    pub nullable: u8,
    /// Compression tag.
    pub compression: u32,
    /// Where the data section starts.
    pub data_offset: u64,
    /// Length of the data section.
    pub data_size: u64,
    /// Where the null bitmap starts.
    pub null_bitmap_offset: u64,
    /// Length of the null bitmap.
    pub null_bitmap_size: u64,
    /// Where the offsets array starts.
    pub offsets_offset: u64,
    /// Length of the offsets array.
    pub offsets_size: u64,
}

/// The 112 bytes that a header is written as.
#[verifier::opaque]
pub open spec fn header_bytes(h: ColumnHeader) -> Seq<u8> {
    magic() + le_bytes(h.version as nat, 4) + zeros(4) + le_bytes(h.row_count as nat, 8)
        + le_bytes(h.data_type as nat, 4) + seq![h.nullable] + zeros(3) + le_bytes(
        h.compression as nat,
        4,
    ) + zeros(4) + le_bytes(h.data_offset as nat, 8) + le_bytes(h.data_size as nat, 8) + le_bytes(
        h.null_bitmap_offset as nat,
        8,
    ) + le_bytes(h.null_bitmap_size as nat, 8) + le_bytes(h.offsets_offset as nat, 8) + le_bytes(
        h.offsets_size as nat,
        8,
    ) + zeros(24)
}

/// The header that a file starts with; `None` where the file is shorter than
/// a header or does not start with the magic.
#[verifier::opaque]
pub open spec fn parse_header(bytes: Seq<u8>) -> Option<ColumnHeader> {
    if bytes.len() < 112 || bytes.subrange(0, 8) != magic() {
        None
    } else {
        Some(
            ColumnHeader {
                version: le_value(bytes.subrange(8, 12)) as u32,
                row_count: le_value(bytes.subrange(16, 24)) as u64,
                data_type: le_value(bytes.subrange(24, 28)) as u32,
                nullable: bytes[28],
                compression: le_value(bytes.subrange(32, 36)) as u32,
                data_offset: le_value(bytes.subrange(40, 48)) as u64,
                data_size: le_value(bytes.subrange(48, 56)) as u64,
                null_bitmap_offset: le_value(bytes.subrange(56, 64)) as u64,
                null_bitmap_size: le_value(bytes.subrange(64, 72)) as u64,
                offsets_offset: le_value(bytes.subrange(72, 80)) as u64,
                offsets_size: le_value(bytes.subrange(80, 88)) as u64,
            },
        )
    }
}

/// A written header has 112 bytes.
pub proof fn lemma_header_bytes_len(h: ColumnHeader)
    ensures
        header_bytes(h).len() == 112,
{
    reveal(header_bytes);
    lemma_le_bytes_len(h.version as nat, 4);
    lemma_le_bytes_len(h.row_count as nat, 8);
    lemma_le_bytes_len(h.data_type as nat, 4);
    lemma_le_bytes_len(h.compression as nat, 4);
    lemma_le_bytes_len(h.data_offset as nat, 8);
    lemma_le_bytes_len(h.data_size as nat, 8);
    lemma_le_bytes_len(h.null_bitmap_offset as nat, 8);
    lemma_le_bytes_len(h.null_bitmap_size as nat, 8);
    lemma_le_bytes_len(h.offsets_offset as nat, 8);
    lemma_le_bytes_len(h.offsets_size as nat, 8);
}

/// A header is read back from a file that starts with its bytes.
pub proof fn lemma_parse_header_bytes(h: ColumnHeader, rest: Seq<u8>)
    ensures
        parse_header(header_bytes(h) + rest) == Some(h),
{
    reveal(header_bytes);
    reveal(parse_header);
    lemma_header_bytes_len(h);
    lemma_pow256_values();
    let file = header_bytes(h) + rest;
    lemma_le_bytes_len(h.version as nat, 4);
    lemma_le_bytes_len(h.row_count as nat, 8);
    lemma_le_bytes_len(h.data_type as nat, 4);
    lemma_le_bytes_len(h.compression as nat, 4);
    lemma_le_bytes_len(h.data_offset as nat, 8);
    lemma_le_bytes_len(h.data_size as nat, 8);
    lemma_le_bytes_len(h.null_bitmap_offset as nat, 8);
    lemma_le_bytes_len(h.null_bitmap_size as nat, 8);
    lemma_le_bytes_len(h.offsets_offset as nat, 8);
    lemma_le_bytes_len(h.offsets_size as nat, 8);
    assert(file.subrange(0, 8) =~= magic());
    assert(file.subrange(8, 12) =~= le_bytes(h.version as nat, 4));
    assert(file.subrange(16, 24) =~= le_bytes(h.row_count as nat, 8));
    assert(file.subrange(24, 28) =~= le_bytes(h.data_type as nat, 4));
    assert(file[28] == h.nullable);
    assert(file.subrange(32, 36) =~= le_bytes(h.compression as nat, 4));
    assert(file.subrange(40, 48) =~= le_bytes(h.data_offset as nat, 8));
    assert(file.subrange(48, 56) =~= le_bytes(h.data_size as nat, 8));
    assert(file.subrange(56, 64) =~= le_bytes(h.null_bitmap_offset as nat, 8));
    assert(file.subrange(64, 72) =~= le_bytes(h.null_bitmap_size as nat, 8));
    assert(file.subrange(72, 80) =~= le_bytes(h.offsets_offset as nat, 8));
    assert(file.subrange(80, 88) =~= le_bytes(h.offsets_size as nat, 8));
    lemma_le_value_of_le_bytes(h.version as nat, 4);
    lemma_le_value_of_le_bytes(h.row_count as nat, 8);
    lemma_le_value_of_le_bytes(h.data_type as nat, 4);
    lemma_le_value_of_le_bytes(h.compression as nat, 4);
    lemma_le_value_of_le_bytes(h.data_offset as nat, 8);
    lemma_le_value_of_le_bytes(h.data_size as nat, 8);
    lemma_le_value_of_le_bytes(h.null_bitmap_offset as nat, 8);
    lemma_le_value_of_le_bytes(h.null_bitmap_size as nat, 8);
    lemma_le_value_of_le_bytes(h.offsets_offset as nat, 8);
    lemma_le_value_of_le_bytes(h.offsets_size as nat, 8);
}

/// Appends `n` zero bytes to `out`.
fn write_zeros(out: &mut Vec<u8>, n: usize)
    ensures
        final(out)@ == old(out)@ + zeros(n as nat),
{
    let mut k: usize = 0;
    assert(out@ =~= old(out)@ + zeros(0));
    while k < n
        invariant
            k <= n,
            out@ == old(out)@ + zeros(k as nat),
        decreases n - k,
    {
        out.push(0);
        k += 1;
        assert(out@ =~= old(out)@ + zeros(k as nat));
    }
}

impl ColumnHeader {
    /// The header of a column of `row_count` rows whose sections are not yet
    /// laid out. `None` where the data type has no tag.
    pub fn new(row_count: u64, data_type: &DataType, nullable: bool, compression: CompressionType) -> (r:
        Option<ColumnHeader>)
        ensures
            r is Some <==> type_tag(*data_type) is Some,
            r matches Some(h) ==> h == (ColumnHeader {
                version: 1,
                row_count,
                data_type: type_tag(*data_type).unwrap(),
                nullable: if nullable {
                    1u8
                } else {
                    0u8
                },
                compression: compression.spec_tag(),
                data_offset: 0,
                data_size: 0,
                null_bitmap_offset: 0,
                null_bitmap_size: 0,
                offsets_offset: 0,
                offsets_size: 0,
            }),
    {
        match ColumnHeader::data_type_to_u32(data_type) {
            Some(tag) => Some(
                ColumnHeader {
                    version: FORMAT_VERSION,
                    row_count,
                    data_type: tag,
                    nullable: if nullable {
                        1
                    } else {
                        0
                    },
                    compression: compression.tag(),
                    data_offset: 0,
                    data_size: 0,
                    null_bitmap_offset: 0,
                    null_bitmap_size: 0,
                    offsets_offset: 0,
                    offsets_size: 0,
                },
            ),
            None => None,
        }
    }

    /// The tag of a data type; `None` where a parameter does not fit its place.
    pub fn data_type_to_u32(data_type: &DataType) -> (r: Option<u32>)
        ensures
            r == type_tag(*data_type),
    {
        match data_type {
            DataType::Boolean => Some(1),
            DataType::Int8 => Some(2),
            DataType::UInt8 => Some(3),
            DataType::Int16 => Some(4),
            DataType::UInt16 => Some(5),
            DataType::Int32 => Some(6),
            DataType::UInt32 => Some(7),
            DataType::Int64 => Some(8),
            DataType::UInt64 => Some(9),
            DataType::Float32 => Some(10),
            DataType::Float64 => Some(11),
            DataType::String => Some(12),
            DataType::Binary => Some(13),
            DataType::Date => Some(14),
            DataType::Timestamp => Some(15),
            DataType::FixedBinary(size) => {
                if *size < 0x100_0000 {
                    Some(16 + (*size as u32) * 256)
                } else {
                    None
                }
            },
            DataType::Decimal(precision, scale) => {
                if *precision < 256 && *scale < 256 {
                    Some(17 + (*precision as u32) * 256 + (*scale as u32) * 65536)
                } else {
                    None
                }
            },
        }
    }

    /// The data type of a tag; `None` where the low byte names no kind.
    pub fn u32_to_data_type(value: u32) -> (r: Option<DataType>)
        ensures
            r == type_of_tag(value),
    {
        match value % 256 {
            1 => Some(DataType::Boolean),
            2 => Some(DataType::Int8),
            3 => Some(DataType::UInt8),
            4 => Some(DataType::Int16),
            5 => Some(DataType::UInt16),
            6 => Some(DataType::Int32),
            7 => Some(DataType::UInt32),
            8 => Some(DataType::Int64),
            9 => Some(DataType::UInt64),
            10 => Some(DataType::Float32),
            11 => Some(DataType::Float64),
            12 => Some(DataType::String),
            13 => Some(DataType::Binary),
            14 => Some(DataType::Date),
            15 => Some(DataType::Timestamp),
            16 => Some(DataType::FixedBinary((value / 256) as usize)),
            17 => Some(
                DataType::Decimal(((value / 256) % 256) as usize, ((value / 65536) % 256) as usize),
            ),
            _ => None,
        }
    }

    /// Appends the 112 bytes of the header to `out`.
    pub fn write(&self, out: &mut Vec<u8>)
        ensures
            final(out)@ == old(out)@ + header_bytes(*self),
    {
        proof {
            reveal(header_bytes);
        }
        out.push(0x55);
        out.push(0x4C);
        out.push(0x54);
        out.push(0x52);
        out.push(0x41);
        out.push(0x43);
        out.push(0x4F);
        out.push(0x4C);
        assert(out@ =~= old(out)@ + magic());
        write_uint_le(out, self.version as u64, 4);
        write_zeros(out, 4);
        write_uint_le(out, self.row_count, 8);
        write_uint_le(out, self.data_type as u64, 4);
        out.push(self.nullable);
        write_zeros(out, 3);
        write_uint_le(out, self.compression as u64, 4);
        write_zeros(out, 4);
        write_uint_le(out, self.data_offset, 8);
        write_uint_le(out, self.data_size, 8);
        write_uint_le(out, self.null_bitmap_offset, 8);
        write_uint_le(out, self.null_bitmap_size, 8);
        write_uint_le(out, self.offsets_offset, 8);
        write_uint_le(out, self.offsets_size, 8);
        write_zeros(out, 24);
        assert(out@ =~= old(out)@ + header_bytes(*self));
    }

    /// Reads the header that `bytes` start with.
    pub fn read(bytes: &[u8]) -> (r: Option<ColumnHeader>)
        ensures
            r == parse_header(bytes@),
    {
        proof {
            reveal(parse_header);
        }
        if bytes.len() < HEADER_SIZE {
            return None;
        }
        if bytes[0] != 0x55 || bytes[1] != 0x4C || bytes[2] != 0x54 || bytes[3] != 0x52 || bytes[4]
            != 0x41 || bytes[5] != 0x43 || bytes[6] != 0x4F || bytes[7] != 0x4C {
            assert(bytes@.subrange(0, 8)[0] == bytes@[0]);
            assert(bytes@.subrange(0, 8)[1] == bytes@[1]);
            assert(bytes@.subrange(0, 8)[2] == bytes@[2]);
            assert(bytes@.subrange(0, 8)[3] == bytes@[3]);
            assert(bytes@.subrange(0, 8)[4] == bytes@[4]);
            assert(bytes@.subrange(0, 8)[5] == bytes@[5]);
            assert(bytes@.subrange(0, 8)[6] == bytes@[6]);
            assert(bytes@.subrange(0, 8)[7] == bytes@[7]);
            return None;
        }
        assert(bytes@.subrange(0, 8) =~= magic());
        proof {
            lemma_pow256_values();
        }
        Some(
            ColumnHeader {
                version: read_uint_le(bytes, 8, 4) as u32,
                row_count: read_uint_le(bytes, 16, 8),
                data_type: read_uint_le(bytes, 24, 4) as u32,
                nullable: bytes[28],
                compression: read_uint_le(bytes, 32, 4) as u32,
                data_offset: read_uint_le(bytes, 40, 8),
                data_size: read_uint_le(bytes, 48, 8),
                null_bitmap_offset: read_uint_le(bytes, 56, 8),
                null_bitmap_size: read_uint_le(bytes, 64, 8),
                offsets_offset: read_uint_le(bytes, 72, 8),
                offsets_size: read_uint_le(bytes, 80, 8),
            },
        )
    }
}

} // verus!
