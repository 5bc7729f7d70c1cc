//! Columns: the builder that collects rows and writes a column file, and the
//! reader that answers from the bytes of such a file.

use crate::columnar::compression::CompressionType;
use crate::columnar::encoding::{
    append_bytes, bool_bytes, decode_signed, encode_signed, int_bytes, int_value, le_bytes,
    le_value, lemma_le_bytes_len, lemma_pow256_values, pow256, read_uint_le, uint_bytes,
    write_uint_le,
};
use crate::columnar::header::{
    header_bytes, parse_header, type_of_tag, type_tag, zeros, ColumnHeader, FORMAT_VERSION,
    HEADER_SIZE,
};
use crate::columnar::layout::{
    bit_weight, data_bytes, file_data_type, file_get_bytes, file_header, file_is_null,
    file_offset, file_row_span, lemma_data_bytes_pushed, lemma_null_bitmap_push,
    lemma_offsets_bytes_len, lemma_prefix_len_push, lemma_prefix_len_pushed,
    lemma_variable_data, lemma_written_file_valid, lemma_written_row, null_bitmap,
    offsets_bytes, prefix_len, rows_fit, valid_column_file, ColumnContent,
};
use crate::utils::text::str_from_utf8;
use vstd::slice::slice_subrange;
use vstd::utf8::valid_utf8;
use crate::columnar::schema::{DataType, Field};
use crate::error::Error;
use vstd::prelude::*;
use vstd::string::StringSliceAdditionalSpecFns;

verus! {

/// The weight of bit `bit` of a byte.
fn weight_of(bit: u64) -> (r: u8)
    requires
        bit < 8,
    ensures
        r == bit_weight(bit as int),
{
    if bit == 0 {
        1
    } else if bit == 1 {
        2
    } else if bit == 2 {
        4
    } else if bit == 3 {
        8
    } else if bit == 4 {
        16
    } else if bit == 5 {
        32
    } else if bit == 6 {
        64
    } else {
        128
    }
}

/// Collects the rows of one column and writes them as a column file.
pub struct ColumnBuilder {
    field: Field,
    data: Vec<u8>,
    null_bitmap: Vec<u8>,
    offsets: Vec<u64>,
    row_count: u64,
    compression: CompressionType,
    rows: Ghost<Seq<Option<Seq<u8>>>>,
}

impl View for ColumnBuilder {
    type V = ColumnContent;

    closed spec fn view(&self) -> ColumnContent {
        ColumnContent {
            data_type: self.field.data_type,
            nullable: self.field.nullable,
            compression: self.compression,
            rows: self.rows@,
        }
    }
}

impl ColumnBuilder {
    /// The invariant of a builder: its buffers hold the sections of its rows.
    pub closed spec fn wf(&self) -> bool {
        let rows = self.rows@;
        let data_type = self.field.data_type;
        &&& self.row_count == rows.len()
        &&& rows_fit(rows, data_type, self.field.nullable)
        &&& self.data@ == data_bytes(rows, data_type, rows.len() as int)
        &&& self.null_bitmap@ == if self.field.nullable {
            null_bitmap(rows)
        } else {
            Seq::<u8>::empty()
        }
        &&& if data_type.spec_is_variable_length() {
            &&& self.offsets@.len() == rows.len()
            &&& forall|i: int|
                0 <= i < rows.len() ==> #[trigger] self.offsets@[i] == prefix_len(rows, i)
        } else {
            self.offsets@.len() == 0
        }
    }

    /// The field that the builder was made for.
    pub closed spec fn spec_field(&self) -> Field {
        self.field
    }

    /// Whether the builder is `before` with `row` added.
    pub open spec fn grown(&self, before: &ColumnBuilder, row: Option<Seq<u8>>) -> bool {
        &&& self.spec_field() == before.spec_field()
        &&& self@ == (ColumnContent { rows: before@.rows.push(row), ..before@ })
    }

    /// The view takes type and nullability from the field.
    pub proof fn lemma_view_field(&self)
        ensures
            self@.data_type == self.spec_field().data_type,
            self@.nullable == self.spec_field().nullable,
    {
    }

    /// A well-formed builder holds rows that fit its type, fewer than 2^64.
    pub proof fn lemma_wf_rows(&self)
        requires
            self.wf(),
        ensures
            rows_fit(self@.rows, self@.data_type, self@.nullable),
            self@.rows.len() <= u64::MAX,
    {
    }

    /// A builder without rows.
    pub fn new(field: Field, compression: CompressionType) -> (r: ColumnBuilder)
        ensures
            r.wf(),
            r.spec_field() == field,
            r@ == (ColumnContent {
                data_type: field.data_type,
                nullable: field.nullable,
                compression,
                rows: Seq::empty(),
            }),
    {
        let r = ColumnBuilder {
            field,
            data: Vec::new(),
            null_bitmap: Vec::new(),
            offsets: Vec::new(),
            row_count: 0,
            compression,
            rows: Ghost(Seq::empty()),
        };
        assert(r.null_bitmap@ =~= null_bitmap(r.rows@));
        r
    }

    /// The field that the builder was made for.
    pub fn field(&self) -> (r: &Field)
        ensures
            *r == self.spec_field(),
    {
        &self.field
    }

    /// The number of rows added so far.
    pub fn row_count(&self) -> (r: u64)
        requires
            self.wf(),
        ensures
            r == self@.rows.len(),
    {
        self.row_count
    }

    /// Adds a row that holds `bytes`.
    fn push_value(&mut self, bytes: &[u8])
        requires
            old(self).wf(),
            old(self).row_count < u64::MAX,
            old(self).field.data_type.spec_size() matches Some(w) ==> bytes@.len() == w,
        ensures
            final(self).wf(),
            final(self).grown(old(self), Some(bytes@)),
    {
        let ghost rows = self.rows@;
        let ghost more = rows.push(Some(bytes@));
        let ghost data_type = self.field.data_type;
        proof {
            lemma_null_bitmap_push(rows, Some(bytes@));
            lemma_data_bytes_pushed(rows, Some(bytes@), data_type);
            lemma_prefix_len_pushed(rows, Some(bytes@));
            if data_type.spec_is_variable_length() {
                lemma_variable_data(rows, data_type, rows.len() as int, 0);
            }
            assert forall|i: int| 0 <= i < rows.len() + 1 implies prefix_len(more, i)
                == prefix_len(rows, i) by {
                lemma_prefix_len_push(rows, Some(bytes@), i);
            }
            assert(rows_fit(more, data_type, self.field.nullable)) by {
                assert forall|i: int| 0 <= i < more.len() implies match (
                    #[trigger] more[i],
                    data_type.spec_size(),
                ) {
                    (Some(b), Some(w)) => b.len() == w,
                    _ => true,
                } by {
                    if i < rows.len() {
                        assert(more[i] == rows[i]);
                    }
                }
            }
        }
        if self.field.nullable && self.row_count % 8 == 0 {
            self.null_bitmap.push(0);
        }
        if self.field.data_type.is_variable_length() {
            self.offsets.push(self.data.len() as u64);
        }
        append_bytes(&mut self.data, bytes);
        self.row_count += 1;
        self.rows = Ghost(more);
        proof {
            if self.field.nullable {
                assert(self.null_bitmap@ =~= null_bitmap(more));
            }
        }
    }

    /// Adds a null row.
    fn push_null(&mut self)
        requires
            old(self).wf(),
            old(self).row_count < u64::MAX,
            old(self).field.nullable,
        ensures
            final(self).wf(),
            final(self).grown(old(self), None),
    {
        let ghost rows = self.rows@;
        let ghost more = rows.push(None);
        let ghost data_type = self.field.data_type;
        proof {
            lemma_null_bitmap_push(rows, None);
            lemma_data_bytes_pushed(rows, None, data_type);
            lemma_prefix_len_pushed(rows, None);
            if data_type.spec_is_variable_length() {
                lemma_variable_data(rows, data_type, rows.len() as int, 0);
            }
            assert forall|i: int| 0 <= i < rows.len() + 1 implies prefix_len(more, i)
                == prefix_len(rows, i) by {
                lemma_prefix_len_push(rows, None, i);
            }
            assert(rows_fit(more, data_type, self.field.nullable)) by {
                assert forall|i: int| 0 <= i < more.len() implies match (
                    #[trigger] more[i],
                    data_type.spec_size(),
                ) {
                    (Some(b), Some(w)) => b.len() == w,
                    _ => true,
                } by {
                    if i < rows.len() {
                        assert(more[i] == rows[i]);
                    }
                }
            }
        }
        let bit: u64 = self.row_count % 8;
        if bit == 0 {
            self.null_bitmap.push(1);
        } else {
            let bitmap_len: usize = self.null_bitmap.len();
            assert(self.row_count / 8 < bitmap_len);
            let byte_index: usize = (self.row_count / 8) as usize;
            let byte: u8 = self.null_bitmap[byte_index];
            self.null_bitmap[byte_index] = byte + weight_of(bit);
        }
        match self.field.data_type.size() {
            Some(width) => {
                let mut cell: Vec<u8> = Vec::new();
                let mut k: usize = 0;
                assert(cell@ =~= zeros(0));
                while k < width
                    invariant
                        k <= width,
                        cell@ == zeros(k as nat),
                    decreases width - k,
                {
                    cell.push(0);
                    k += 1;
                    assert(cell@ =~= zeros(k as nat));
                }
                append_bytes(&mut self.data, cell.as_slice());
            },
            None => {
                self.offsets.push(self.data.len() as u64);
                assert(self.data@ + Seq::<u8>::empty() =~= self.data@);
            },
        }
        self.row_count += 1;
        self.rows = Ghost(more);
    }

    /// The error for a value of a type that the column does not have.
    fn mismatch(message: &str) -> (r: Error)
        ensures
            r is InvalidArgument,
    {
        Error::InvalidArgument(message.to_owned())
    }

    /// Adds an unsigned integer of `width` bytes.
    fn push_uint(&mut self, value: u64, width: usize)
        requires
            old(self).wf(),
            old(self).row_count < u64::MAX,
            width <= 8,
            old(self).field.data_type.spec_size() == Some(width),
        ensures
            final(self).wf(),
            final(self).grown(old(self), Some(le_bytes(value as nat, width as nat))),
    {
        let mut bytes: Vec<u8> = Vec::new();
        write_uint_le(&mut bytes, value, width);
        proof {
            lemma_le_bytes_len(value as nat, width as nat);
            assert(bytes@ =~= le_bytes(value as nat, width as nat));
        }
        self.push_value(bytes.as_slice());
    }

    /// Adds a null row. Rejected unless the column is nullable.
    pub fn append_null(&mut self) -> (r: Result<(), Error>)
        requires
            old(self).wf(),
        ensures
            final(self).wf(),
            append_outcome(old(self), final(self), r, old(self)@.nullable, None),
    {
        if !self.field.nullable {
            return Err(Self::mismatch("Column is not nullable"));
        }
        if self.row_count == u64::MAX {
            return Err(Error::SizeExceedsSystemLimit);
        }
        self.push_null();
        Ok(())
    }

    /// Adds a signed integer of `width` bytes.
    fn push_int(&mut self, value: i64, width: usize)
        requires
            old(self).wf(),
            old(self).row_count < u64::MAX,
            width == 1 || width == 2 || width == 4 || width == 8,
            -(pow256(width as nat) / 2) <= value < pow256(width as nat) / 2,
            old(self).field.data_type.spec_size() == Some(width),
        ensures
            final(self).wf(),
            final(self).grown(old(self), Some(int_bytes(value as int, width as nat))),
    {
        let unsigned: u64 = encode_signed(value, width);
        self.push_uint(unsigned, width);
    }

    /// Adds a boolean. Rejected unless the column is of that type.
    pub fn append_bool(&mut self, value: bool) -> (r: Result<(), Error>)
        requires
            old(self).wf(),
        ensures
            final(self).wf(),
            append_outcome(
                old(self),
                final(self),
                r,
                old(self)@.data_type is Boolean,
                Some(bool_bytes(value)),
            ),
    {
        match self.field.data_type {
            DataType::Boolean => {},
            _ => {
                return Err(Self::mismatch("Value does not have the type of the column"));
            },
        }
        if self.row_count == u64::MAX {
            return Err(Error::SizeExceedsSystemLimit);
        }
        proof {
            lemma_pow256_values();
        }
        let byte: u8 = if value {
            1
        } else {
            0
        };
        let mut bytes: Vec<u8> = Vec::new();
        bytes.push(byte);
        assert(bytes@ =~= bool_bytes(value));
        self.push_value(bytes.as_slice());
        Ok(())
    }

    /// Adds an 8-bit signed integer. Rejected unless the column is of that type.
    pub fn append_i8(&mut self, value: i8) -> (r: Result<(), Error>)
        requires
            old(self).wf(),
        ensures
            final(self).wf(),
            append_outcome(
                old(self),
                final(self),
                r,
                old(self)@.data_type is Int8,
                Some(int_bytes(value as int, 1)),
            ),
    {
        match self.field.data_type {
            DataType::Int8 => {},
            _ => {
                return Err(Self::mismatch("Value does not have the type of the column"));
            },
        }
        if self.row_count == u64::MAX {
            return Err(Error::SizeExceedsSystemLimit);
        }
        proof {
            lemma_pow256_values();
        }
        self.push_int(value as i64, 1);
        Ok(())
    }

    /// Adds an 8-bit unsigned integer. Rejected unless the column is of that type.
    pub fn append_u8(&mut self, value: u8) -> (r: Result<(), Error>)
        requires
            old(self).wf(),
        ensures
            final(self).wf(),
            append_outcome(
                old(self),
                final(self),
                r,
                old(self)@.data_type is UInt8,
                Some(uint_bytes(value as nat, 1)),
            ),
    {
        match self.field.data_type {
            DataType::UInt8 => {},
            _ => {
                return Err(Self::mismatch("Value does not have the type of the column"));
            },
        }
        if self.row_count == u64::MAX {
            return Err(Error::SizeExceedsSystemLimit);
        }
        proof {
            lemma_pow256_values();
        }
        self.push_uint(value as u64, 1);
        Ok(())
    }

    /// Adds a 16-bit signed integer. Rejected unless the column is of that type.
    pub fn append_i16(&mut self, value: i16) -> (r: Result<(), Error>)
        requires
            old(self).wf(),
        ensures
            final(self).wf(),
            append_outcome(
                old(self),
                final(self),
                r,
                old(self)@.data_type is Int16,
                Some(int_bytes(value as int, 2)),
            ),
    {
        match self.field.data_type {
            DataType::Int16 => {},
            _ => {
                return Err(Self::mismatch("Value does not have the type of the column"));
            },
        }
        if self.row_count == u64::MAX {
            return Err(Error::SizeExceedsSystemLimit);
        }
        proof {
            lemma_pow256_values();
        }
        self.push_int(value as i64, 2);
        Ok(())
    }

    /// Adds a 16-bit unsigned integer. Rejected unless the column is of that type.
    pub fn append_u16(&mut self, value: u16) -> (r: Result<(), Error>)
        requires
            old(self).wf(),
        ensures
            final(self).wf(),
            append_outcome(
                old(self),
                final(self),
                r,
                old(self)@.data_type is UInt16,
                Some(uint_bytes(value as nat, 2)),
            ),
    {
        match self.field.data_type {
            DataType::UInt16 => {},
            _ => {
                return Err(Self::mismatch("Value does not have the type of the column"));
            },
        }
        if self.row_count == u64::MAX {
            return Err(Error::SizeExceedsSystemLimit);
        }
        proof {
            lemma_pow256_values();
        }
        self.push_uint(value as u64, 2);
        Ok(())
    }

    /// Adds a 32-bit signed integer. Rejected unless the column is of that type.
    pub fn append_i32(&mut self, value: i32) -> (r: Result<(), Error>)
        requires
            old(self).wf(),
        ensures
            final(self).wf(),
            append_outcome(
                old(self),
                final(self),
                r,
                old(self)@.data_type is Int32,
                Some(int_bytes(value as int, 4)),
            ),
    {
        match self.field.data_type {
            DataType::Int32 => {},
            _ => {
                return Err(Self::mismatch("Value does not have the type of the column"));
            },
        }
        if self.row_count == u64::MAX {
            return Err(Error::SizeExceedsSystemLimit);
        }
        proof {
            lemma_pow256_values();
        }
        self.push_int(value as i64, 4);
        Ok(())
    }

    /// Adds a 32-bit unsigned integer. Rejected unless the column is of that type.
    pub fn append_u32(&mut self, value: u32) -> (r: Result<(), Error>)
        requires
            old(self).wf(),
        ensures
            final(self).wf(),
            append_outcome(
                old(self),
                final(self),
                r,
                old(self)@.data_type is UInt32,
                Some(uint_bytes(value as nat, 4)),
            ),
    {
        match self.field.data_type {
            DataType::UInt32 => {},
            _ => {
                return Err(Self::mismatch("Value does not have the type of the column"));
            },
        }
        if self.row_count == u64::MAX {
            return Err(Error::SizeExceedsSystemLimit);
        }
        proof {
            lemma_pow256_values();
        }
        self.push_uint(value as u64, 4);
        Ok(())
    }

    /// Adds a 64-bit signed integer. Rejected unless the column is of that type.
    pub fn append_i64(&mut self, value: i64) -> (r: Result<(), Error>)
        requires
            old(self).wf(),
        ensures
            final(self).wf(),
            append_outcome(
                old(self),
                final(self),
                r,
                old(self)@.data_type is Int64,
                Some(int_bytes(value as int, 8)),
            ),
    {
        match self.field.data_type {
            DataType::Int64 => {},
            _ => {
                return Err(Self::mismatch("Value does not have the type of the column"));
            },
        }
        if self.row_count == u64::MAX {
            return Err(Error::SizeExceedsSystemLimit);
        }
        proof {
            lemma_pow256_values();
        }
        self.push_int(value, 8);
        Ok(())
    }

    /// Adds a 64-bit unsigned integer. Rejected unless the column is of that type.
    pub fn append_u64(&mut self, value: u64) -> (r: Result<(), Error>)
        requires
            old(self).wf(),
        ensures
            final(self).wf(),
            append_outcome(
                old(self),
                final(self),
                r,
                old(self)@.data_type is UInt64,
                Some(uint_bytes(value as nat, 8)),
            ),
    {
        match self.field.data_type {
            DataType::UInt64 => {},
            _ => {
                return Err(Self::mismatch("Value does not have the type of the column"));
            },
        }
        if self.row_count == u64::MAX {
            return Err(Error::SizeExceedsSystemLimit);
        }
        proof {
            lemma_pow256_values();
        }
        self.push_uint(value, 8);
        Ok(())
    }

    /// Adds a 32-bit float, given as its bit pattern. Rejected unless the
    /// column is of that type.
    pub fn append_f32_bits(&mut self, value: u32) -> (r: Result<(), Error>)
        requires
            old(self).wf(),
        ensures
            final(self).wf(),
            append_outcome(
                old(self),
                final(self),
                r,
                old(self)@.data_type is Float32,
                Some(uint_bytes(value as nat, 4)),
            ),
    {
        match self.field.data_type {
            DataType::Float32 => {},
            _ => {
                return Err(Self::mismatch("Value does not have the type of the column"));
            },
        }
        if self.row_count == u64::MAX {
            return Err(Error::SizeExceedsSystemLimit);
        }
        proof {
            lemma_pow256_values();
        }
        self.push_uint(value as u64, 4);
        Ok(())
    }

    /// Adds a 64-bit float, given as its bit pattern. Rejected unless the
    /// column is of that type.
    pub fn append_f64_bits(&mut self, value: u64) -> (r: Result<(), Error>)
        requires
            old(self).wf(),
        ensures
            final(self).wf(),
            append_outcome(
                old(self),
                final(self),
                r,
                old(self)@.data_type is Float64,
                Some(uint_bytes(value as nat, 8)),
            ),
    {
        match self.field.data_type {
            DataType::Float64 => {},
            _ => {
                return Err(Self::mismatch("Value does not have the type of the column"));
            },
        }
        if self.row_count == u64::MAX {
            return Err(Error::SizeExceedsSystemLimit);
        }
        proof {
            lemma_pow256_values();
        }
        self.push_uint(value, 8);
        Ok(())
    }

    /// Adds a string, as its UTF-8 bytes. Rejected unless the column is of that
    /// type.
    pub fn append_string(&mut self, value: &str) -> (r: Result<(), Error>)
        requires
            old(self).wf(),
        ensures
            final(self).wf(),
            append_outcome(
                old(self),
                final(self),
                r,
                old(self)@.data_type is String,
                Some(value.spec_bytes()),
            ),
    {
        match self.field.data_type {
            DataType::String => {},
            _ => {
                return Err(Self::mismatch("Value does not have the type of the column"));
            },
        }
        if self.row_count == u64::MAX {
            return Err(Error::SizeExceedsSystemLimit);
        }
        proof {
            lemma_pow256_values();
        }
        self.push_value(value.as_bytes());
        Ok(())
    }

    /// Adds a date, as days since the epoch. Rejected unless the column is of
    /// that type.
    pub fn append_date(&mut self, value: i32) -> (r: Result<(), Error>)
        requires
            old(self).wf(),
        ensures
            final(self).wf(),
            append_outcome(
                old(self),
                final(self),
                r,
                old(self)@.data_type is Date,
                Some(int_bytes(value as int, 4)),
            ),
    {
        match self.field.data_type {
            DataType::Date => {},
            _ => {
                return Err(Self::mismatch("Value does not have the type of the column"));
            },
        }
        if self.row_count == u64::MAX {
            return Err(Error::SizeExceedsSystemLimit);
        }
        proof {
            lemma_pow256_values();
        }
        self.push_int(value as i64, 4);
        Ok(())
    }

    /// Adds a timestamp, as milliseconds since the epoch. Rejected unless the
    /// column is of that type.
    pub fn append_timestamp(&mut self, value: i64) -> (r: Result<(), Error>)
        requires
            old(self).wf(),
        ensures
            final(self).wf(),
            append_outcome(
                old(self),
                final(self),
                r,
                old(self)@.data_type is Timestamp,
                Some(int_bytes(value as int, 8)),
            ),
    {
        match self.field.data_type {
            DataType::Timestamp => {},
            _ => {
                return Err(Self::mismatch("Value does not have the type of the column"));
            },
        }
        if self.row_count == u64::MAX {
            return Err(Error::SizeExceedsSystemLimit);
        }
        proof {
            lemma_pow256_values();
        }
        self.push_int(value, 8);
        Ok(())
    }

    /// Adds bytes. Rejected unless the column is binary, or fixed-size binary
    /// of exactly the length of `value`.
    pub fn append_binary(&mut self, value: &[u8]) -> (r: Result<(), Error>)
        requires
            old(self).wf(),
        ensures
            final(self).wf(),
            append_outcome(
                old(self),
                final(self),
                r,
                binary_accepts(old(self)@.data_type, value@.len()),
                Some(value@),
            ),
    {
        match self.field.data_type {
            DataType::Binary => {},
            DataType::FixedBinary(size) => {
                if value.len() != size {
                    return Err(
                        Self::mismatch("Binary value length does not match the fixed size"),
                    );
                }
            },
            _ => {
                return Err(Self::mismatch("Column is not of binary type"));
            },
        }
        if self.row_count == u64::MAX {
            return Err(Error::SizeExceedsSystemLimit);
        }
        self.push_value(value);
        Ok(())
    }

    /// The bytes of the column file: header, null bitmap, offsets, data.
    /// Fails where the data type has no tag or a size does not fit 64 bits.
    pub fn to_bytes(&self) -> (r: Result<Vec<u8>, Error>)
        requires
            self.wf(),
        ensures
            match r {
                Ok(bytes) => self@.writable() && bytes@ == self@.file(),
                Err(e) => !self@.writable() && if type_tag(self@.data_type) is None {
                    e is InvalidArgument
                } else {
                    e is SizeExceedsSystemLimit
                },
            },
    {
        proof {
            reveal(ColumnContent::file);
        }
        let ghost rows = self.rows@;
        let ghost data_type = self.field.data_type;
        let variable: bool = self.field.data_type.is_variable_length();
        proof {
            lemma_offsets_bytes_len(rows, rows.len() as int + 1);
            if variable {
                lemma_variable_data(rows, data_type, rows.len() as int, 0);
            }
        }
        let mut header = match ColumnHeader::new(
            self.row_count,
            &self.field.data_type,
            self.field.nullable,
            self.compression,
        ) {
            Some(h) => h,
            None => {
                return Err(Error::InvalidArgument("Data type cannot be written".to_owned()));
            },
        };
        let bitmap_size: u64 = self.null_bitmap.len() as u64;
        let data_size: u64 = self.data.len() as u64;
        let offsets_size: u64 = if variable {
            match self.row_count.checked_add(1) {
                Some(entries) => match entries.checked_mul(8) {
                    Some(size) => size,
                    None => {
                        return Err(Error::SizeExceedsSystemLimit);
                    },
                },
                None => {
                    return Err(Error::SizeExceedsSystemLimit);
                },
            }
        } else {
            0
        };
        let bitmap_end: u64 = match bitmap_size.checked_add(HEADER_SIZE as u64) {
            Some(v) => v,
            None => {
                return Err(Error::SizeExceedsSystemLimit);
            },
        };
        let data_offset: u64 = match bitmap_end.checked_add(offsets_size) {
            Some(v) => v,
            None => {
                return Err(Error::SizeExceedsSystemLimit);
            },
        };
        if data_offset.checked_add(data_size).is_none() {
            return Err(Error::SizeExceedsSystemLimit);
        }
        header.data_offset = data_offset;
        header.data_size = data_size;
        header.null_bitmap_offset = if bitmap_size > 0 {
            HEADER_SIZE as u64
        } else {
            0
        };
        header.null_bitmap_size = bitmap_size;
        header.offsets_offset = if offsets_size > 0 {
            bitmap_end
        } else {
            0
        };
        header.offsets_size = offsets_size;
        assert(header == self@.header());

        let mut out: Vec<u8> = Vec::new();
        header.write(&mut out);
        assert(out@ =~= header_bytes(header));
        if bitmap_size > 0 {
            append_bytes(&mut out, self.null_bitmap.as_slice());
        }
        assert(out@ =~= header_bytes(header) + self@.bitmap_section());
        if variable {
            let ghost base = out@;
            let mut k: usize = 0;
            assert(out@ =~= base + offsets_bytes(rows, 0));
            while k < self.offsets.len()
                invariant
                    k <= self.offsets@.len(),
                    self.offsets@.len() == rows.len(),
                    forall|i: int|
                        0 <= i < rows.len() ==> #[trigger] self.offsets@[i] == prefix_len(rows, i),
                    out@ == base + offsets_bytes(rows, k as int),
                decreases self.offsets@.len() - k,
            {
                let ghost before = out@;
                write_uint_le(&mut out, self.offsets[k], 8);
                k += 1;
                assert(out@ =~= base + offsets_bytes(rows, k as int));
            }
            write_uint_le(&mut out, data_size, 8);
            assert(out@ =~= base + offsets_bytes(rows, rows.len() as int + 1));
        }
        assert(out@ =~= header_bytes(header) + self@.bitmap_section() + self@.offsets_section());
        append_bytes(&mut out, self.data.as_slice());
        Ok(out)
    }
}

/// Whether a column of `data_type` takes a binary value of `len` bytes.
pub open spec fn binary_accepts(data_type: DataType, len: nat) -> bool {
    match data_type {
        DataType::Binary => true,
        DataType::FixedBinary(size) => len == size,
        _ => false,
    }
}

/// What adding `row` to a builder gives: where the column accepts the value
/// and has room, the builder grows by the row; else nothing changes, and the
/// error says which of the two failed.
pub open spec fn append_outcome(
    before: &ColumnBuilder,
    after: &ColumnBuilder,
    r: Result<(), Error>,
    accepted: bool,
    row: Option<Seq<u8>>,
) -> bool {
    match r {
        Ok(_) => accepted && before@.rows.len() < u64::MAX && after.grown(before, row),
        Err(e) => *after == *before && if !accepted {
            e is InvalidArgument
        } else {
            before@.rows.len() == u64::MAX && e is SizeExceedsSystemLimit
        },
    }
}

/// The bytes of row `i` of a file whose column is of `data_type`; `None`
/// where the column is of another type.
pub open spec fn file_value(file: Seq<u8>, i: int, data_type: DataType) -> Option<Seq<u8>> {
    if file_data_type(file) == data_type {
        file_get_bytes(file, i)
    } else {
        None
    }
}

/// The bytes of row `i` of a file whose column is binary, of either kind.
pub open spec fn file_binary(file: Seq<u8>, i: int) -> Option<Seq<u8>> {
    if file_data_type(file) is Binary || file_data_type(file) is FixedBinary {
        file_get_bytes(file, i)
    } else {
        None
    }
}

/// A column read from the bytes of a column file.
pub struct Column<'a> {
    field: Field,
    bytes: &'a [u8],
    header: ColumnHeader,
    compression: CompressionType,
}

impl<'a> Column<'a> {
    /// The invariant of a column: its file passed the checks of `open`, and
    /// its fields say what the header says.
    #[verifier::type_invariant]
    pub closed spec fn wf(self) -> bool {
        &&& valid_column_file(self.bytes@)
        &&& parse_header(self.bytes@) == Some(self.header)
        &&& Some(self.field.data_type) == type_of_tag(self.header.data_type)
        &&& self.field.nullable == (self.header.nullable != 0)
        &&& Some(self.compression) == CompressionType::spec_from_tag(self.header.compression)
    }

    /// The bytes of the file that the column reads.
    pub closed spec fn file(&self) -> Seq<u8> {
        self.bytes@
    }

    /// The number of rows that the header gives.
    pub open spec fn spec_row_count(&self) -> u64 {
        file_header(self.file()).row_count
    }

    /// Opens the column that `bytes` hold. The file must be at least a
    /// header long, start with the magic, have version 1, a known data type
    /// and compression, a data section inside the file, a null bitmap of one
    /// bit a row exactly where the column is nullable, and an offsets array
    /// of one entry more than rows exactly where the type is of variable
    /// length.
    pub fn open(bytes: &'a [u8]) -> (r: Result<Column<'a>, Error>)
        ensures
            match r {
                Ok(c) => valid_column_file(bytes@) && c.wf() && c.file() == bytes@,
                Err(e) => !valid_column_file(bytes@) && e is InvalidArgument,
            },
    {
        proof {
            reveal(valid_column_file);
        }
        let header = match ColumnHeader::read(bytes) {
            Some(h) => h,
            None => {
                return Err(
                    Error::InvalidArgument("File is not a column file".to_owned()),
                );
            },
        };
        if header.version != FORMAT_VERSION {
            return Err(Error::InvalidArgument("Unknown column format version".to_owned()));
        }
        let data_type = match ColumnHeader::u32_to_data_type(header.data_type) {
            Some(t) => t,
            None => {
                return Err(Error::InvalidArgument("Invalid data type tag".to_owned()));
            },
        };
        let compression = match CompressionType::from_tag(header.compression) {
            Some(c) => c,
            None => {
                return Err(Error::InvalidArgument("Invalid compression tag".to_owned()));
            },
        };
        let len: u64 = bytes.len() as u64;
        match header.data_offset.checked_add(header.data_size) {
            Some(end) => {
                if end > len {
                    return Err(
                        Error::InvalidArgument("Data section lies outside the file".to_owned()),
                    );
                }
            },
            None => {
                return Err(
                    Error::InvalidArgument("Data section lies outside the file".to_owned()),
                );
            },
        }
        let nullable: bool = header.nullable != 0;
        let bitmap_size: u64 = if nullable {
            header.row_count / 8 + if header.row_count % 8 == 0 {
                0
            } else {
                1
            }
        } else {
            0
        };
        if header.null_bitmap_size != bitmap_size {
            return Err(Error::InvalidArgument("Null bitmap has the wrong size".to_owned()));
        }
        if data_type.is_variable_length() {
            let expected: Option<u64> = match header.row_count.checked_add(1) {
                Some(entries) => entries.checked_mul(8),
                None => None,
            };
            match expected {
                Some(size) => {
                    if header.offsets_size != size {
                        return Err(
                            Error::InvalidArgument("Offsets array has the wrong size".to_owned()),
                        );
                    }
                },
                None => {
                    return Err(
                        Error::InvalidArgument("Offsets array has the wrong size".to_owned()),
                    );
                },
            }
        } else if header.offsets_size != 0 {
            return Err(Error::InvalidArgument("Offsets array has the wrong size".to_owned()));
        }
        Ok(Column { field: Field::new("column", data_type, nullable), bytes, header, compression })
    }

    /// The number of rows.
    pub fn row_count(&self) -> (r: u64)
        ensures
            r == self.spec_row_count(),
    {
        proof {
            use_type_invariant(self);
        }
        self.header.row_count
    }

    /// The type of the values.
    pub fn data_type(&self) -> (r: DataType)
        ensures
            r == file_data_type(self.file()),
    {
        proof {
            use_type_invariant(self);
        }
        self.field.data_type
    }

    /// Whether rows may be null.
    pub fn is_nullable(&self) -> (r: bool)
        ensures
            r == (file_header(self.file()).nullable != 0),
    {
        proof {
            use_type_invariant(self);
        }
        self.field.nullable
    }

    /// The compression that the header names.
    pub fn compression(&self) -> (r: CompressionType)
        ensures
            Some(r) == CompressionType::spec_from_tag(file_header(self.file()).compression),
    {
        proof {
            use_type_invariant(self);
        }
        self.compression
    }

    /// Whether row `row_index` is null: never in a column that is not
    /// nullable, else as the bit of the row in the null bitmap says.
    pub fn is_null(&self, row_index: u64) -> (r: bool)
        ensures
            r == file_is_null(self.file(), row_index as int),
    {
        proof {
            reveal(file_is_null);
        }
        proof {
            use_type_invariant(self);
        }
        let len: u64 = self.bytes.len() as u64;
        if !self.field.nullable || row_index >= self.header.row_count {
            return false;
        }
        let at: u64 = match self.header.null_bitmap_offset.checked_add(row_index / 8) {
            Some(v) => v,
            None => {
                return false;
            },
        };
        if at >= len {
            return false;
        }
        let byte: u8 = self.bytes[at as usize];
        (byte / weight_of(row_index % 8)) % 2 == 1
    }

    /// Entry `index` of the offsets array, where the file holds it.
    fn offset_at(&self, index: u64) -> (r: Option<u64>)
        ensures
            match r {
                Some(v) => file_offset(self.file(), index as int) == Some(v as nat),
                None => file_offset(self.file(), index as int) is None,
            },
    {
        proof {
            reveal(file_offset);
        }
        proof {
            use_type_invariant(self);
            lemma_pow256_values();
        }
        let len: u64 = self.bytes.len() as u64;
        let skip: u64 = match index.checked_mul(8) {
            Some(v) => v,
            None => {
                return None;
            },
        };
        let at: u64 = match self.header.offsets_offset.checked_add(skip) {
            Some(v) => v,
            None => {
                return None;
            },
        };
        match at.checked_add(8) {
            Some(end) => {
                if end > len {
                    return None;
                }
            },
            None => {
                return None;
            },
        }
        Some(read_uint_le(self.bytes, at as usize, 8))
    }

    /// Where the bytes of row `row_index` lie in the data section.
    fn row_span(&self, row_index: u64) -> (r: Option<(u64, u64)>)
        requires
            row_index < self.spec_row_count(),
        ensures
            match r {
                Some((start, end)) => file_row_span(self.file(), row_index as int) == Some(
                    (start as int, end as int),
                ) && start <= end <= file_header(self.file()).data_size,
                None => file_row_span(self.file(), row_index as int) is None,
            },
    {
        proof {
            reveal(file_row_span);
            reveal(valid_column_file);
        }
        proof {
            use_type_invariant(self);
        }
        match self.field.data_type.size() {
            Some(width) => {
                let w: u64 = width as u64;
                let end: u64 = match (row_index + 1).checked_mul(w) {
                    Some(v) => v,
                    None => {
                        return None;
                    },
                };
                if end > self.header.data_size {
                    return None;
                }
                assert((row_index + 1) * w == row_index * w + w) by (nonlinear_arith);
                assert(0 <= row_index * w) by (nonlinear_arith);
                Some((end - w, end))
            },
            None => {
                let start: u64 = match self.offset_at(row_index) {
                    Some(v) => v,
                    None => {
                        return None;
                    },
                };
                let end: u64 = match self.offset_at(row_index + 1) {
                    Some(v) => v,
                    None => {
                        return None;
                    },
                };
                if start <= end && end <= self.header.data_size {
                    Some((start, end))
                } else {
                    None
                }
            },
        }
    }

    /// The bytes of row `row_index`; `None` for a null row, for a row that the
    /// column does not have, and for a row without a span in the data section.
    pub fn get_bytes(&self, row_index: u64) -> (r: Option<&'a [u8]>)
        ensures
            match r {
                Some(s) => file_get_bytes(self.file(), row_index as int) == Some(s@),
                None => file_get_bytes(self.file(), row_index as int) is None,
            },
    {
        proof {
            reveal(file_get_bytes);
            reveal(valid_column_file);
        }
        proof {
            use_type_invariant(self);
        }
        if row_index >= self.header.row_count || self.is_null(row_index) {
            return None;
        }
        match self.row_span(row_index) {
            Some((start, end)) => {
                let len: usize = self.bytes.len();
                let from: u64 = self.header.data_offset + start;
                let to: u64 = self.header.data_offset + end;
                Some(slice_subrange(self.bytes, from as usize, to as usize))
            },
            None => None,
        }
    }

    /// The bytes of row `row_index` where the column is of the fixed-width
    /// type `expected`.
    fn fixed_bytes(&self, row_index: u64, expected: DataType, width: usize) -> (r: Option<&'a [u8]>)
        requires
            expected.spec_size() == Some(width),
        ensures
            match r {
                Some(s) => file_value(self.file(), row_index as int, expected) == Some(s@)
                    && s@.len() == width,
                None => file_value(self.file(), row_index as int, expected) is None,
            },
    {
        proof {
            reveal(file_get_bytes);
            reveal(file_row_span);
            reveal(valid_column_file);
        }
        proof {
            use_type_invariant(self);
        }
        if self.field.data_type != expected {
            return None;
        }
        let r = self.get_bytes(row_index);
        proof {
            if r is Some {
                let i = row_index as int;
                let w = width as int;
                assert((i + 1) * w - i * w == w) by (nonlinear_arith);
            }
        }
        r
    }

    /// The boolean of row `row_index`; `None` for a null row and where the column
    /// is of another type.
    pub fn get_bool(&self, row_index: u64) -> (r: Option<bool>)
        ensures
            r == match file_value(self.file(), row_index as int, DataType::Boolean) {
                Some(b) => Some(b[0] != 0),
                None => None,
            },
    {
        proof {
            lemma_pow256_values();
        }
        match self.fixed_bytes(row_index, DataType::Boolean, 1) {
            Some(b) => {
                assert(b@.subrange(0, 1) =~= b@);
                Some(b[0] != 0)
            },
            None => None,
        }
    }

    /// The 8-bit signed integer of row `row_index`; `None` for a null row and
    /// where the column is of another type.
    pub fn get_i8(&self, row_index: u64) -> (r: Option<i8>)
        ensures
            r == match file_value(self.file(), row_index as int, DataType::Int8) {
                Some(b) => Some(int_value(b) as i8),
                None => None,
            },
    {
        proof {
            lemma_pow256_values();
        }
        match self.fixed_bytes(row_index, DataType::Int8, 1) {
            Some(b) => {
                assert(b@.subrange(0, 1) =~= b@);
                Some(decode_signed(read_uint_le(b, 0, 1), 1) as i8)
            },
            None => None,
        }
    }

    /// The 8-bit unsigned integer of row `row_index`; `None` for a null row and
    /// where the column is of another type.
    pub fn get_u8(&self, row_index: u64) -> (r: Option<u8>)
        ensures
            r == match file_value(self.file(), row_index as int, DataType::UInt8) {
                Some(b) => Some(le_value(b) as u8),
                None => None,
            },
    {
        proof {
            lemma_pow256_values();
        }
        match self.fixed_bytes(row_index, DataType::UInt8, 1) {
            Some(b) => {
                assert(b@.subrange(0, 1) =~= b@);
                Some(read_uint_le(b, 0, 1) as u8)
            },
            None => None,
        }
    }

    /// The 16-bit signed integer of row `row_index`; `None` for a null row and
    /// where the column is of another type.
    pub fn get_i16(&self, row_index: u64) -> (r: Option<i16>)
        ensures
            r == match file_value(self.file(), row_index as int, DataType::Int16) {
                Some(b) => Some(int_value(b) as i16),
                None => None,
            },
    {
        proof {
            lemma_pow256_values();
        }
        match self.fixed_bytes(row_index, DataType::Int16, 2) {
            Some(b) => {
                assert(b@.subrange(0, 2) =~= b@);
                Some(decode_signed(read_uint_le(b, 0, 2), 2) as i16)
            },
            None => None,
        }
    }

    /// The 16-bit unsigned integer of row `row_index`; `None` for a null row
    /// and where the column is of another type.
    pub fn get_u16(&self, row_index: u64) -> (r: Option<u16>)
        ensures
            r == match file_value(self.file(), row_index as int, DataType::UInt16) {
                Some(b) => Some(le_value(b) as u16),
                None => None,
            },
    {
        proof {
            lemma_pow256_values();
        }
        match self.fixed_bytes(row_index, DataType::UInt16, 2) {
            Some(b) => {
                assert(b@.subrange(0, 2) =~= b@);
                Some(read_uint_le(b, 0, 2) as u16)
            },
            None => None,
        }
    }

    /// The 32-bit signed integer of row `row_index`; `None` for a null row and
    /// where the column is of another type.
    pub fn get_i32(&self, row_index: u64) -> (r: Option<i32>)
        ensures
            r == match file_value(self.file(), row_index as int, DataType::Int32) {
                Some(b) => Some(int_value(b) as i32),
                None => None,
            },
    {
        proof {
            lemma_pow256_values();
        }
        match self.fixed_bytes(row_index, DataType::Int32, 4) {
            Some(b) => {
                assert(b@.subrange(0, 4) =~= b@);
                Some(decode_signed(read_uint_le(b, 0, 4), 4) as i32)
            },
            None => None,
        }
    }

    /// The 32-bit unsigned integer of row `row_index`; `None` for a null row
    /// and where the column is of another type.
    pub fn get_u32(&self, row_index: u64) -> (r: Option<u32>)
        ensures
            r == match file_value(self.file(), row_index as int, DataType::UInt32) {
                Some(b) => Some(le_value(b) as u32),
                None => None,
            },
    {
        proof {
            lemma_pow256_values();
        }
        match self.fixed_bytes(row_index, DataType::UInt32, 4) {
            Some(b) => {
                assert(b@.subrange(0, 4) =~= b@);
                Some(read_uint_le(b, 0, 4) as u32)
            },
            None => None,
        }
    }

    /// The 64-bit signed integer of row `row_index`; `None` for a null row and
    /// where the column is of another type.
    pub fn get_i64(&self, row_index: u64) -> (r: Option<i64>)
        ensures
            r == match file_value(self.file(), row_index as int, DataType::Int64) {
                Some(b) => Some(int_value(b) as i64),
                None => None,
            },
    {
        proof {
            lemma_pow256_values();
        }
        match self.fixed_bytes(row_index, DataType::Int64, 8) {
            Some(b) => {
                assert(b@.subrange(0, 8) =~= b@);
                Some(decode_signed(read_uint_le(b, 0, 8), 8))
            },
            None => None,
        }
    }

    /// The 64-bit unsigned integer of row `row_index`; `None` for a null row
    /// and where the column is of another type.
    pub fn get_u64(&self, row_index: u64) -> (r: Option<u64>)
        ensures
            r == match file_value(self.file(), row_index as int, DataType::UInt64) {
                Some(b) => Some(le_value(b) as u64),
                None => None,
            },
    {
        proof {
            lemma_pow256_values();
        }
        match self.fixed_bytes(row_index, DataType::UInt64, 8) {
            Some(b) => {
                assert(b@.subrange(0, 8) =~= b@);
                Some(read_uint_le(b, 0, 8))
            },
            None => None,
        }
    }

    /// The bit pattern of the 32-bit float of row `row_index`; `None` for a
    /// null row and where the column is of another type.
    pub fn get_f32_bits(&self, row_index: u64) -> (r: Option<u32>)
        ensures
            r == match file_value(self.file(), row_index as int, DataType::Float32) {
                Some(b) => Some(le_value(b) as u32),
                None => None,
            },
    {
        proof {
            lemma_pow256_values();
        }
        match self.fixed_bytes(row_index, DataType::Float32, 4) {
            Some(b) => {
                assert(b@.subrange(0, 4) =~= b@);
                Some(read_uint_le(b, 0, 4) as u32)
            },
            None => None,
        }
    }

    /// The bit pattern of the 64-bit float of row `row_index`; `None` for a
    /// null row and where the column is of another type.
    pub fn get_f64_bits(&self, row_index: u64) -> (r: Option<u64>)
        ensures
            r == match file_value(self.file(), row_index as int, DataType::Float64) {
                Some(b) => Some(le_value(b) as u64),
                None => None,
            },
    {
        proof {
            lemma_pow256_values();
        }
        match self.fixed_bytes(row_index, DataType::Float64, 8) {
            Some(b) => {
                assert(b@.subrange(0, 8) =~= b@);
                Some(read_uint_le(b, 0, 8))
            },
            None => None,
        }
    }

    /// The date of row `row_index`; `None` for a null row and where the column
    /// is of another type.
    pub fn get_date(&self, row_index: u64) -> (r: Option<i32>)
        ensures
            r == match file_value(self.file(), row_index as int, DataType::Date) {
                Some(b) => Some(int_value(b) as i32),
                None => None,
            },
    {
        proof {
            lemma_pow256_values();
        }
        match self.fixed_bytes(row_index, DataType::Date, 4) {
            Some(b) => {
                assert(b@.subrange(0, 4) =~= b@);
                Some(decode_signed(read_uint_le(b, 0, 4), 4) as i32)
            },
            None => None,
        }
    }

    /// The timestamp of row `row_index`; `None` for a null row and where the column
    /// is of another type.
    pub fn get_timestamp(&self, row_index: u64) -> (r: Option<i64>)
        ensures
            r == match file_value(self.file(), row_index as int, DataType::Timestamp) {
                Some(b) => Some(int_value(b) as i64),
                None => None,
            },
    {
        proof {
            lemma_pow256_values();
        }
        match self.fixed_bytes(row_index, DataType::Timestamp, 8) {
            Some(b) => {
                assert(b@.subrange(0, 8) =~= b@);
                Some(decode_signed(read_uint_le(b, 0, 8), 8))
            },
            None => None,
        }
    }

    /// The string of row `row_index`; `None` for a null row, where the column
    /// is not a string column, and where the bytes are not valid UTF-8.
    pub fn get_string(&self, row_index: u64) -> (r: Option<&'a str>)
        ensures
            match file_value(self.file(), row_index as int, DataType::String) {
                Some(b) => if valid_utf8(b) {
                    r matches Some(s) && s.spec_bytes() == b
                } else {
                    r is None
                },
                None => r is None,
            },
    {
        proof {
            use_type_invariant(self);
        }
        match self.field.data_type {
            DataType::String => match self.get_bytes(row_index) {
                Some(bytes) => str_from_utf8(bytes),
                None => None,
            },
            _ => None,
        }
    }

    /// The bytes of row `row_index` of a binary column, of either kind;
    /// `None` for a null row and where the column is not binary.
    pub fn get_binary(&self, row_index: u64) -> (r: Option<&'a [u8]>)
        ensures
            match r {
                Some(s) => file_binary(self.file(), row_index as int) == Some(s@),
                None => file_binary(self.file(), row_index as int) is None,
            },
    {
        proof {
            use_type_invariant(self);
        }
        match self.field.data_type {
            DataType::Binary | DataType::FixedBinary(_) => self.get_bytes(row_index),
            _ => None,
        }
    }

    /// An iterator over the rows, from the first.
    pub fn iter<'c>(&'c self) -> (r: ColumnIterator<'c, 'a>)
        ensures
            r.wf(),
            r.spec_column() == *self,
            r.position() == 0,
    {
        proof {
            use_type_invariant(self);
        }
        ColumnIterator { column: self, current_row: 0, row_count: self.header.row_count }
    }
}

/// Walks the rows of a column once, giving the bytes of each row.
pub struct ColumnIterator<'c, 'a> {
    column: &'c Column<'a>,
    current_row: u64,
    row_count: u64,
}

impl<'c, 'a> ColumnIterator<'c, 'a> {
    /// The invariant of an iterator: it stands at a row of its column, or
    /// behind the last.
    #[verifier::type_invariant]
    pub closed spec fn wf(self) -> bool {
        &&& self.column.wf()
        &&& self.row_count == self.column.spec_row_count()
        &&& self.current_row <= self.row_count
    }

    /// The column that is walked.
    pub closed spec fn spec_column(&self) -> Column<'a> {
        *self.column
    }

    /// The index of the row that comes next.
    pub closed spec fn position(&self) -> u64 {
        self.current_row
    }

    /// The position never lies behind the end of the column.
    pub proof fn lemma_position(self)
        requires
            self.wf(),
        ensures
            self.position() <= self.spec_column().spec_row_count(),
    {
    }

    /// The bytes of the next row, and a step forward; `None` behind the
    /// last row. The inner value is `None` for a null row.
    pub fn next(&mut self) -> (r: Option<Option<&'a [u8]>>)
        ensures
            final(self).spec_column() == old(self).spec_column(),
            match r {
                Some(item) => old(self).position() < old(self).spec_column().spec_row_count()
                    && final(self).position() == old(self).position() + 1 && match item {
                    Some(s) => file_get_bytes(
                        old(self).spec_column().file(),
                        old(self).position() as int,
                    ) == Some(s@),
                    None => file_get_bytes(
                        old(self).spec_column().file(),
                        old(self).position() as int,
                    ) is None,
                },
                None => old(self).position() == old(self).spec_column().spec_row_count()
                    && final(self).position() == old(self).position(),
            },
    {
        proof {
            use_type_invariant(&*self);
        }
        if self.current_row >= self.row_count {
            return None;
        }
        let row: u64 = self.current_row;
        self.current_row = row + 1;
        Some(self.column.get_bytes(row))
    }

    /// The number of rows that are left.
    pub fn remaining(&self) -> (r: u64)
        ensures
            r == self.spec_column().spec_row_count() - self.position(),
    {
        proof {
            use_type_invariant(self);
        }
        self.row_count - self.current_row
    }

    /// Bounds on the number of rows that are left: both are that number
    /// where it fits `usize`.
    pub fn size_hint(&self) -> (r: (usize, Option<usize>))
        ensures
            self.spec_column().spec_row_count() - self.position() <= usize::MAX ==> r.0
                == self.spec_column().spec_row_count() - self.position() && r.1 == Some(r.0),
            self.spec_column().spec_row_count() - self.position() > usize::MAX ==> r.0
                == usize::MAX && r.1 is None,
    {
        let remaining: u64 = self.remaining();
        if remaining <= usize::MAX as u64 {
            (remaining as usize, Some(remaining as usize))
        } else {
            (usize::MAX, None)
        }
    }
}

/// Two columns that were opened from the same bytes have the same rows.
pub proof fn lemma_reopened(first: Column, second: Column, i: int)
    requires
        first.wf(),
        second.wf(),
        first.file() == second.file(),
    ensures
        first.spec_row_count() == second.spec_row_count(),
        file_is_null(first.file(), i) == file_is_null(second.file(), i),
        file_get_bytes(first.file(), i) == file_get_bytes(second.file(), i),
        forall|data_type: DataType|
            file_value(first.file(), i, data_type) == file_value(second.file(), i, data_type),
{
}

/// What was added to a builder is read from its file: the file opens as a
/// column with as many rows as were added, and row `i` is null or has its
/// bytes as it was added.
pub proof fn lemma_builder_round_trip(builder: ColumnBuilder, i: int)
    requires
        builder.wf(),
        builder@.writable(),
        0 <= i < builder@.rows.len(),
    ensures
        valid_column_file(builder@.file()),
        file_header(builder@.file()).row_count == builder@.rows.len(),
        file_data_type(builder@.file()) == builder@.data_type,
        file_is_null(builder@.file(), i) == (builder@.rows[i] is None),
        file_get_bytes(builder@.file(), i) == builder@.rows[i],
        file_value(builder@.file(), i, builder@.data_type) == builder@.rows[i],
{
    lemma_written_file_valid(builder@);
    lemma_written_row(builder@, i);
}

} // verus!
