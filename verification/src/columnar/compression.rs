//! Compression tags and the compression interface.

use crate::error::Error;
use vstd::prelude::*;
use vstd::slice::slice_to_vec;

verus! {

/// How the data section of a column is compressed.
#[derive(Debug, Clone, Copy, PartialEq, Eq, Structural)]
pub enum CompressionType {
    /// No compression.
    Uncompressed,
    /// LZ4.
    LZ4,
    /// Zstd.
    Zstd,
    /// Snappy.
    Snappy,
    /// Dictionary encoding.
    Dictionary,
    /// Run-length encoding.
    RunLength,
    /// Delta encoding.
    Delta,
    /// Bit-packing.
    BitPacking,
}

impl CompressionType {
    /// The number that stands for the compression in a column header.
    pub open spec fn spec_tag(&self) -> u32 {
        match *self {
            CompressionType::Uncompressed => 0u32,
            CompressionType::LZ4 => 1u32,
            CompressionType::Zstd => 2u32,
            CompressionType::Snappy => 3u32,
            CompressionType::Dictionary => 4u32,
            CompressionType::RunLength => 5u32,
            CompressionType::Delta => 6u32,
            CompressionType::BitPacking => 7u32,
        }
    }

    /// The compression that `tag` stands for, if any.
    pub open spec fn spec_from_tag(tag: u32) -> Option<CompressionType> {
        if tag == 0 {
            Some(CompressionType::Uncompressed)
        } else if tag == 1 {
            Some(CompressionType::LZ4)
        } else if tag == 2 {
            Some(CompressionType::Zstd)
        } else if tag == 3 {
            Some(CompressionType::Snappy)
        } else if tag == 4 {
            Some(CompressionType::Dictionary)
        } else if tag == 5 {
            Some(CompressionType::RunLength)
        } else if tag == 6 {
            Some(CompressionType::Delta)
        } else if tag == 7 {
            Some(CompressionType::BitPacking)
        } else {
            None
        }
    }

    /// The number that stands for the compression in a column header.
    #[verifier::when_used_as_spec(spec_tag)]
    pub fn tag(&self) -> (r: u32)
        ensures
            r == self.spec_tag(),
            CompressionType::spec_from_tag(r) == Some(*self),
    {
        match self {
            CompressionType::Uncompressed => 0,
            CompressionType::LZ4 => 1,
            CompressionType::Zstd => 2,
            CompressionType::Snappy => 3,
            CompressionType::Dictionary => 4,
            CompressionType::RunLength => 5,
            CompressionType::Delta => 6,
            CompressionType::BitPacking => 7,
        }
    }

    /// The compression that `tag` stands for, if any.
    #[verifier::when_used_as_spec(spec_from_tag)]
    pub fn from_tag(tag: u32) -> (r: Option<CompressionType>)
        ensures
            r == CompressionType::spec_from_tag(tag),
            r matches Some(c) ==> c.spec_tag() == tag,
    {
        match tag {
            0 => Some(CompressionType::Uncompressed),
            1 => Some(CompressionType::LZ4),
            2 => Some(CompressionType::Zstd),
            3 => Some(CompressionType::Snappy),
            4 => Some(CompressionType::Dictionary),
            5 => Some(CompressionType::RunLength),
            6 => Some(CompressionType::Delta),
            7 => Some(CompressionType::BitPacking),
            _ => None,
        }
    }
}

/// A compression algorithm.
pub trait Compression {
    /// Compresses `data`.
    fn compress(&self, data: &[u8]) -> Result<Vec<u8>, Error>;

    /// Restores `decompressed_size` bytes from `data`.
    fn decompress(&self, data: &[u8], decompressed_size: usize) -> Result<Vec<u8>, Error>;

    /// The tag of the algorithm.
    fn compression_type(&self) -> CompressionType;
}

/// The algorithm that leaves the data as it is.
pub struct NoCompression;

impl Compression for NoCompression {
    fn compress(&self, data: &[u8]) -> (r: Result<Vec<u8>, Error>)
        ensures
            r matches Ok(v) && v@ == data@,
    {
        Ok(slice_to_vec(data))
    }

    fn decompress(&self, data: &[u8], decompressed_size: usize) -> (r: Result<Vec<u8>, Error>)
        ensures
            r matches Ok(v) && v@ == data@,
    {
        Ok(slice_to_vec(data))
    }

    fn compression_type(&self) -> (r: CompressionType)
        ensures
            r == CompressionType::Uncompressed,
    {
        CompressionType::Uncompressed
    }
}

} // verus!
