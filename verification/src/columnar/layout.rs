//! What a column file holds, stated over the rows of the column.
//!
//! A column is a sequence of rows; a row is null (`None`) or holds the bytes
//! of its value. After the header a file holds up to three sections: the
//! null bitmap (nullable columns), the offsets array (variable-length
//! types) and the data.

use crate::columnar::compression::CompressionType;
use crate::columnar::encoding::{
    le_bytes, le_value, lemma_le_bytes_len, lemma_le_value_of_le_bytes, lemma_pow256_values,
};
use crate::columnar::header::{
    header_bytes, lemma_header_bytes_len, lemma_parse_header_bytes, lemma_type_tag_round_trip,
    parse_header, type_of_tag, type_tag, zeros, ColumnHeader,
};
use crate::columnar::schema::DataType;
use vstd::prelude::*;

verus! {

/// The weight of bit `bit` of a byte.
pub open spec fn bit_weight(bit: int) -> int {
    if bit == 0 {
        1
    } else if bit == 1 {
        2
    } else if bit == 2 {
        4
    } else if bit == 3 {
        8
    } else if bit == 4 {
        16
    } else if bit == 5 {
        32
    } else if bit == 6 {
        64
    } else {
        128
    }
}

/// Whether bit `bit` of `byte` is set, bit 0 being the least significant.
pub open spec fn bit_at(byte: u8, bit: int) -> bool {
    (byte as int / bit_weight(bit)) % 2 == 1
}

/// Whether `rows` has a row `i` and that row is null.
pub open spec fn null_at(rows: Seq<Option<Seq<u8>>>, i: int) -> bool {
    0 <= i < rows.len() && rows[i] is None
}

/// `weight` where row `i` is null, else zero.
pub open spec fn null_flag(rows: Seq<Option<Seq<u8>>>, i: int, weight: int) -> int {
    if null_at(rows, i) {
        weight
    } else {
        0
    }
}

/// Byte `k` of the null bitmap: bit `j` stands for row `8k + j`.
#[verifier::opaque]
pub open spec fn null_byte(rows: Seq<Option<Seq<u8>>>, k: int) -> u8 {
    (null_flag(rows, 8 * k, 1) + null_flag(rows, 8 * k + 1, 2) + null_flag(rows, 8 * k + 2, 4)
        + null_flag(rows, 8 * k + 3, 8) + null_flag(rows, 8 * k + 4, 16) + null_flag(
        rows,
        8 * k + 5,
        32,
    ) + null_flag(rows, 8 * k + 6, 64) + null_flag(rows, 8 * k + 7, 128)) as u8
}

/// The null bitmap of `rows`: one bit a row, eight rows a byte.
pub open spec fn null_bitmap(rows: Seq<Option<Seq<u8>>>) -> Seq<u8> {
    Seq::new(((rows.len() + 7) / 8) as nat, |k: int| null_byte(rows, k))
}

/// The number of bytes that a row holds; none for a null row.
pub open spec fn row_len(row: Option<Seq<u8>>) -> nat {
    match row {
        Some(b) => b.len(),
        None => 0,
    }
}

/// The number of bytes that the first `count` rows hold.
pub open spec fn prefix_len(rows: Seq<Option<Seq<u8>>>, count: int) -> nat
    decreases count,
{
    if count <= 0 || count > rows.len() {
        0
    } else {
        prefix_len(rows, count - 1) + row_len(rows[count - 1])
    }
}

/// The first `count` entries of the offsets array, eight bytes each: entry
/// `i` is where row `i` starts in the data section.
pub open spec fn offsets_bytes(rows: Seq<Option<Seq<u8>>>, count: int) -> Seq<u8>
    decreases count,
{
    if count <= 0 {
        Seq::empty()
    } else {
        offsets_bytes(rows, count - 1) + le_bytes(prefix_len(rows, count - 1), 8)
    }
}

/// What a row takes in the data section: its bytes, or for a null row of a
/// fixed-width type as many zero bytes.
pub open spec fn row_cell(row: Option<Seq<u8>>, data_type: DataType) -> Seq<u8> {
    match row {
        Some(b) => b,
        None => match data_type.spec_size() {
            Some(w) => zeros(w as nat),
            None => Seq::empty(),
        },
    }
}

/// The data section of the first `count` rows.
pub open spec fn data_bytes(rows: Seq<Option<Seq<u8>>>, data_type: DataType, count: int) -> Seq<
    u8,
>
    decreases count,
{
    if count <= 0 || count > rows.len() {
        Seq::empty()
    } else {
        data_bytes(rows, data_type, count - 1) + row_cell(rows[count - 1], data_type)
    }
}

/// Whether `rows` can be the rows of a column of the given type: a value of
/// a fixed-width type has that width, and only a nullable column has nulls.
pub open spec fn rows_fit(rows: Seq<Option<Seq<u8>>>, data_type: DataType, nullable: bool) -> bool {
    &&& forall|i: int| 0 <= i < rows.len() && rows[i] is None ==> nullable
    &&& forall|i: int|
        0 <= i < rows.len() ==> match (#[trigger] rows[i], data_type.spec_size()) {
            (Some(b), Some(w)) => b.len() == w,
            _ => true,
        }
}

/// A column before it is written: its type and its rows.
pub struct ColumnContent {
    /// The type of the values.
    pub data_type: DataType,
    /// Whether rows may be null.
    pub nullable: bool,
    /// The compression tag.
    pub compression: CompressionType,
    /// The rows.
    pub rows: Seq<Option<Seq<u8>>>,
}

impl ColumnContent {
    /// The null bitmap section; empty where the column is not nullable.
    pub open spec fn bitmap_section(self) -> Seq<u8> {
        if self.nullable {
            null_bitmap(self.rows)
        } else {
            Seq::empty()
        }
    }

    /// The offsets section; empty for a fixed-width type.
    pub open spec fn offsets_section(self) -> Seq<u8> {
        if self.data_type.spec_is_variable_length() {
            offsets_bytes(self.rows, self.rows.len() as int + 1)
        } else {
            Seq::empty()
        }
    }

    /// The data section.
    pub open spec fn data_section(self) -> Seq<u8> {
        data_bytes(self.rows, self.data_type, self.rows.len() as int)
    }

    /// Where the offsets section starts in the file.
    pub open spec fn offsets_start(self) -> int {
        112 + self.bitmap_section().len() as int
    }

    /// Where the data section starts in the file.
    pub open spec fn data_start(self) -> int {
        112 + self.bitmap_section().len() as int + self.offsets_section().len() as int
    }

    /// The length of the whole file.
    pub open spec fn file_len(self) -> nat {
        112 + self.bitmap_section().len() + self.offsets_section().len()
            + self.data_section().len()
    }

    /// Whether the content can be written: the rows fit the type, the type
    /// has a tag, and every offset and size fits 64 bits.
    pub open spec fn writable(self) -> bool {
        &&& rows_fit(self.rows, self.data_type, self.nullable)
        &&& type_tag(self.data_type) is Some
        &&& self.rows.len() <= u64::MAX
        &&& self.file_len() <= u64::MAX
    }

    /// The header of the file.
    pub open spec fn header(self) -> ColumnHeader {
        let bitmap_size = self.bitmap_section().len();
        let offsets_size = self.offsets_section().len();
        ColumnHeader {
            version: 1,
            row_count: self.rows.len() as u64,
            data_type: type_tag(self.data_type).unwrap(),
            nullable: if self.nullable {
                1u8
            } else {
                0u8
            },
            compression: self.compression.spec_tag(),
            data_offset: (112 + bitmap_size + offsets_size) as u64,
            data_size: self.data_section().len() as u64,
            null_bitmap_offset: if bitmap_size > 0 {
                112u64
            } else {
                0u64
            },
            null_bitmap_size: bitmap_size as u64,
            offsets_offset: if offsets_size > 0 {
                (112 + bitmap_size) as u64
            } else {
                0u64
            },
            offsets_size: offsets_size as u64,
        }
    }

    /// The bytes of the file: header, null bitmap, offsets, data.
    #[verifier::opaque]
    pub open spec fn file(self) -> Seq<u8> {
        header_bytes(self.header()) + self.bitmap_section() + self.offsets_section()
            + self.data_section()
    }
}

/// Whether a file passes the checks made when a column is opened.
#[verifier::opaque]
pub open spec fn valid_column_file(file: Seq<u8>) -> bool {
    match parse_header(file) {
        Some(h) => {
            &&& h.version == 1
            &&& type_of_tag(h.data_type) is Some
            &&& CompressionType::spec_from_tag(h.compression) is Some
            &&& h.data_offset + h.data_size <= file.len()
            &&& h.nullable == 0 ==> h.null_bitmap_size == 0
            &&& h.nullable != 0 ==> h.null_bitmap_size == (h.row_count + 7) / 8
            &&& if type_of_tag(h.data_type).unwrap().spec_is_variable_length() {
                h.offsets_size == (h.row_count + 1) * 8
            } else {
                h.offsets_size == 0
            }
        },
        None => false,
    }
}

/// The header of a file that starts with one.
pub open spec fn file_header(file: Seq<u8>) -> ColumnHeader {
    parse_header(file).unwrap()
}

/// The data type that the header of a file names.
pub open spec fn file_data_type(file: Seq<u8>) -> DataType {
    type_of_tag(file_header(file).data_type).unwrap()
}

/// Whether row `i` of a file is null: the column is nullable and the bit of
/// the row is set in the null bitmap.
#[verifier::opaque]
pub open spec fn file_is_null(file: Seq<u8>, i: int) -> bool {
    let h = file_header(file);
    &&& h.nullable != 0
    &&& 0 <= i < h.row_count
    &&& h.null_bitmap_offset + i / 8 < file.len()
    &&& bit_at(file[h.null_bitmap_offset + i / 8], i % 8)
}

/// Entry `i` of the offsets array of a file, where the file holds it.
#[verifier::opaque]
pub open spec fn file_offset(file: Seq<u8>, i: int) -> Option<nat> {
    let h = file_header(file);
    let at = h.offsets_offset + 8 * i;
    if 0 <= i && at + 8 <= file.len() {
        Some(le_value(file.subrange(at, at + 8)))
    } else {
        None
    }
}

/// Where the bytes of row `i` lie in the data section, as start and end;
/// `None` where the row has no span inside the data section.
#[verifier::opaque]
pub open spec fn file_row_span(file: Seq<u8>, i: int) -> Option<(int, int)> {
    let h = file_header(file);
    match file_data_type(file).spec_size() {
        Some(w) => if (i + 1) * w <= h.data_size {
            Some((i * w, (i + 1) * w))
        } else {
            None
        },
        None => match (file_offset(file, i), file_offset(file, i + 1)) {
            (Some(start), Some(end)) => if start <= end <= h.data_size {
                Some((start as int, end as int))
            } else {
                None
            },
            _ => None,
        },
    }
}

/// The bytes of row `i` of a file; `None` for a null row, for a row that the
/// column does not have, and for a row without a span in the data section.
#[verifier::opaque]
pub open spec fn file_get_bytes(file: Seq<u8>, i: int) -> Option<Seq<u8>> {
    let h = file_header(file);
    if !(0 <= i < h.row_count) || file_is_null(file, i) {
        None
    } else {
        match file_row_span(file, i) {
            Some((start, end)) => Some(file.subrange(h.data_offset + start, h.data_offset + end)),
            None => None,
        }
    }
}

/// Bit `bit` of byte `k` of the null bitmap says whether row `8k + bit` is null.
pub proof fn lemma_null_byte_bit(rows: Seq<Option<Seq<u8>>>, k: int, bit: int)
    requires
        0 <= bit < 8,
    ensures
        bit_at(null_byte(rows, k), bit) == null_at(rows, 8 * k + bit),
{
    reveal(null_byte);
}

/// A row beyond the rows leaves its bit clear.
pub proof fn lemma_null_byte_bound(rows: Seq<Option<Seq<u8>>>, k: int, bit: int)
    requires
        0 <= bit < 8,
        rows.len() <= 8 * k + bit,
    ensures
        null_byte(rows, k) < bit_weight(bit),
        null_byte(rows, k) + bit_weight(bit) < 256,
{
    reveal(null_byte);
}

/// What one more row does to the null bitmap: a ninth row starts a new
/// byte, another row sets or leaves its bit in the last byte.
pub proof fn lemma_null_bitmap_push(rows: Seq<Option<Seq<u8>>>, row: Option<Seq<u8>>)
    ensures
        rows.len() % 8 == 0 ==> null_bitmap(rows.push(row)) == null_bitmap(rows).push(
            if row is None {
                1u8
            } else {
                0u8
            },
        ),
        rows.len() % 8 != 0 ==> rows.len() / 8 < null_bitmap(rows).len() && null_bitmap(
            rows,
        )[rows.len() as int / 8] + bit_weight(rows.len() as int % 8) < 256 && null_bitmap(
            rows.push(row),
        ) == null_bitmap(
            rows,
        ).update(
            rows.len() as int / 8,
            if row is None {
                (null_bitmap(rows)[rows.len() as int / 8] + bit_weight(rows.len() as int % 8)) as u8
            } else {
                null_bitmap(rows)[rows.len() as int / 8]
            },
        ),
{
    reveal(null_byte);
    let n = rows.len() as int;
    let more = rows.push(row);
    let k = n / 8;
    let bit = n % 8;
    assert forall|m: int| m != n implies null_at(more, m) == null_at(rows, m) by {}
    assert(null_at(more, n) == (row is None));
    assert(!null_at(rows, n));
    assert forall|j: int| j != k implies null_byte(more, j) == null_byte(rows, j) by {}
    if bit == 0 {
        assert(null_bitmap(more) =~= null_bitmap(rows).push(
            if row is None {
                1u8
            } else {
                0u8
            },
        ));
    } else {
        lemma_null_byte_bound(rows, k, bit);
        assert(null_bitmap(more) =~= null_bitmap(rows).update(
            k,
            if row is None {
                (null_bitmap(rows)[k] + bit_weight(bit)) as u8
            } else {
                null_bitmap(rows)[k]
            },
        ));
    }
}

/// The first rows keep their total length when a row is added.
pub proof fn lemma_prefix_len_push(rows: Seq<Option<Seq<u8>>>, row: Option<Seq<u8>>, count: int)
    requires
        count <= rows.len(),
    ensures
        prefix_len(rows.push(row), count) == prefix_len(rows, count),
    decreases count,
{
    if count > 0 {
        lemma_prefix_len_push(rows, row, count - 1);
    }
}

/// A new row adds its length to the total.
pub proof fn lemma_prefix_len_pushed(rows: Seq<Option<Seq<u8>>>, row: Option<Seq<u8>>)
    ensures
        prefix_len(rows.push(row), rows.len() as int + 1) == prefix_len(rows, rows.len() as int)
            + row_len(row),
{
    lemma_prefix_len_push(rows, row, rows.len() as int);
    assert(rows.push(row)[rows.len() as int] == row);
}

/// The total length grows with the number of rows.
pub proof fn lemma_prefix_len_monotone(rows: Seq<Option<Seq<u8>>>, a: int, b: int)
    requires
        0 <= a <= b <= rows.len(),
    ensures
        prefix_len(rows, a) <= prefix_len(rows, b),
    decreases b - a,
{
    if a < b {
        lemma_prefix_len_monotone(rows, a, b - 1);
    }
}

/// The offsets array holds eight bytes an entry; entry `i` spells the total
/// length of the first `i` rows.
pub proof fn lemma_offsets_bytes_entry(rows: Seq<Option<Seq<u8>>>, count: int, i: int)
    requires
        0 <= i < count,
    ensures
        offsets_bytes(rows, count).len() == 8 * count,
        offsets_bytes(rows, count).subrange(8 * i, 8 * i + 8) == le_bytes(prefix_len(rows, i), 8),
    decreases count,
{
    lemma_offsets_bytes_len(rows, count);
    lemma_offsets_bytes_len(rows, count - 1);
    lemma_le_bytes_len(prefix_len(rows, count - 1), 8);
    if i < count - 1 {
        lemma_offsets_bytes_entry(rows, count - 1, i);
        assert(offsets_bytes(rows, count).subrange(8 * i, 8 * i + 8) =~= offsets_bytes(
            rows,
            count - 1,
        ).subrange(8 * i, 8 * i + 8));
    } else {
        assert(offsets_bytes(rows, count).subrange(8 * i, 8 * i + 8) =~= le_bytes(
            prefix_len(rows, i),
            8,
        ));
    }
}

/// The offsets array holds eight bytes an entry.
pub proof fn lemma_offsets_bytes_len(rows: Seq<Option<Seq<u8>>>, count: int)
    ensures
        offsets_bytes(rows, count).len() == if count <= 0 {
            0
        } else {
            8 * count
        },
    decreases count,
{
    if count > 0 {
        lemma_offsets_bytes_len(rows, count - 1);
        lemma_le_bytes_len(prefix_len(rows, count - 1), 8);
    }
}

/// The data of the first rows stays when a row is added.
pub proof fn lemma_data_bytes_push(
    rows: Seq<Option<Seq<u8>>>,
    row: Option<Seq<u8>>,
    data_type: DataType,
    count: int,
)
    requires
        count <= rows.len(),
    ensures
        data_bytes(rows.push(row), data_type, count) == data_bytes(rows, data_type, count),
    decreases count,
{
    if count > 0 {
        lemma_data_bytes_push(rows, row, data_type, count - 1);
    }
}

/// A new row adds its cell to the data.
pub proof fn lemma_data_bytes_pushed(
    rows: Seq<Option<Seq<u8>>>,
    row: Option<Seq<u8>>,
    data_type: DataType,
)
    ensures
        data_bytes(rows.push(row), data_type, rows.len() as int + 1) == data_bytes(
            rows,
            data_type,
            rows.len() as int,
        ) + row_cell(row, data_type),
{
    lemma_data_bytes_push(rows, row, data_type, rows.len() as int);
    assert(rows.push(row)[rows.len() as int] == row);
}

/// In the data of a variable-length type, row `i` lies between the total
/// lengths of the first `i` and the first `i + 1` rows.
pub proof fn lemma_variable_data(rows: Seq<Option<Seq<u8>>>, data_type: DataType, count: int, i: int)
    requires
        data_type.spec_is_variable_length(),
        0 <= count <= rows.len(),
    ensures
        data_bytes(rows, data_type, count).len() == prefix_len(rows, count),
        0 <= i < count ==> prefix_len(rows, i) <= prefix_len(rows, i + 1) <= prefix_len(
            rows,
            count,
        ) && data_bytes(rows, data_type, count).subrange(
            prefix_len(rows, i) as int,
            prefix_len(rows, i + 1) as int,
        ) == row_cell(rows[i], data_type),
    decreases count,
{
    if count > 0 {
        lemma_variable_data(rows, data_type, count - 1, i);
        if 0 <= i < count {
            lemma_prefix_len_monotone(rows, i + 1, count);
            let all = data_bytes(rows, data_type, count);
            let before = data_bytes(rows, data_type, count - 1);
            if i < count - 1 {
                lemma_prefix_len_monotone(rows, i + 1, count - 1);
                assert(all.subrange(prefix_len(rows, i) as int, prefix_len(rows, i + 1) as int)
                    =~= before.subrange(
                    prefix_len(rows, i) as int,
                    prefix_len(rows, i + 1) as int,
                ));
            } else {
                assert(all.subrange(prefix_len(rows, i) as int, prefix_len(rows, i + 1) as int)
                    =~= row_cell(rows[i], data_type));
            }
        }
    }
}

/// In the data of a type of width `w`, row `i` lies at `i * w`.
pub proof fn lemma_fixed_data(rows: Seq<Option<Seq<u8>>>, data_type: DataType, count: int, i: int)
    requires
        data_type.spec_size() is Some,
        rows_fit(rows, data_type, true),
        0 <= count <= rows.len(),
    ensures
        data_bytes(rows, data_type, count).len() == count * data_type.spec_size().unwrap(),
        0 <= i < count ==> (i + 1) * data_type.spec_size().unwrap() <= count
            * data_type.spec_size().unwrap() && data_bytes(rows, data_type, count).subrange(
            i * data_type.spec_size().unwrap(),
            (i + 1) * data_type.spec_size().unwrap(),
        ) == row_cell(rows[i], data_type),
    decreases count,
{
    let w = data_type.spec_size().unwrap() as int;
    if count > 0 {
        lemma_fixed_data(rows, data_type, count - 1, i);
        let all = data_bytes(rows, data_type, count);
        let before = data_bytes(rows, data_type, count - 1);
        assert(row_cell(rows[count - 1], data_type).len() == w);
        assert(count * w == (count - 1) * w + w) by (nonlinear_arith);
        if 0 <= i < count {
            assert((i + 1) * w == i * w + w) by (nonlinear_arith);
            assert((i + 1) * w <= count * w) by (nonlinear_arith)
                requires
                    i + 1 <= count,
                    w >= 0,
            ;
            assert(0 <= i * w) by (nonlinear_arith)
                requires
                    0 <= i,
                    w >= 0,
            ;
            if i < count - 1 {
                assert(all.subrange(i * w, (i + 1) * w) =~= before.subrange(i * w, (i + 1) * w));
            } else {
                assert(all.subrange(i * w, (i + 1) * w) =~= row_cell(rows[i], data_type));
            }
        }
    } else {
        assert(0 * w == 0);
    }
}

/// The sections of a written file lie one after the other behind the header.
pub proof fn lemma_file_sections(c: ColumnContent)
    requires
        c.writable(),
    ensures
        c.file().len() == c.file_len(),
        parse_header(c.file()) == Some(c.header()),
        c.bitmap_section().len() == if c.nullable {
            (c.rows.len() + 7) / 8
        } else {
            0
        },
        c.offsets_section().len() == if c.data_type.spec_is_variable_length() {
            8 * (c.rows.len() + 1)
        } else {
            0
        },
        c.file().subrange(112, c.offsets_start()) == c.bitmap_section(),
        c.file().subrange(c.offsets_start(), c.data_start()) == c.offsets_section(),
        c.file().subrange(c.data_start(), c.file().len() as int) == c.data_section(),
{
    reveal(ColumnContent::file);
    let h = c.header();
    lemma_header_bytes_len(h);
    lemma_offsets_bytes_len(c.rows, c.rows.len() as int + 1);
    let rest = c.bitmap_section() + c.offsets_section() + c.data_section();
    assert(c.file() =~= header_bytes(h) + rest);
    lemma_parse_header_bytes(h, rest);
    assert(c.file().subrange(112, c.offsets_start()) =~= c.bitmap_section());
    assert(c.file().subrange(c.offsets_start(), c.data_start()) =~= c.offsets_section());
    assert(c.file().subrange(c.data_start(), c.file().len() as int) =~= c.data_section());
}

/// A written file passes the checks made when a column is opened, and its
/// header gives the type, the nullability and the number of rows.
pub proof fn lemma_written_file_valid(c: ColumnContent)
    requires
        c.writable(),
    ensures
        valid_column_file(c.file()),
        file_header(c.file()) == c.header(),
        file_header(c.file()).row_count == c.rows.len(),
        file_data_type(c.file()) == c.data_type,
        (file_header(c.file()).nullable != 0) == c.nullable,
        CompressionType::spec_from_tag(file_header(c.file()).compression) == Some(c.compression),
{
    reveal(valid_column_file);
    lemma_file_sections(c);
    lemma_type_tag_round_trip(c.data_type);
}

/// Row `i` of a written file is null exactly where it was written as null.
pub proof fn lemma_written_null(c: ColumnContent, i: int)
    requires
        c.writable(),
        0 <= i < c.rows.len(),
    ensures
        file_is_null(c.file(), i) == (c.rows[i] is None),
{
    reveal(file_is_null);
    lemma_file_sections(c);
    let file = c.file();
    let h = c.header();
    assert(file_header(file) == h);
    if c.nullable {
        let k = i / 8;
        let bitmap = c.bitmap_section();
        assert(0 <= k < bitmap.len());
        assert(bitmap == file.subrange(112, c.offsets_start()));
        assert(file[112 + k] == bitmap[k]);
        assert(bitmap[k] == null_byte(c.rows, k));
        lemma_null_byte_bit(c.rows, k, i % 8);
        assert(h.null_bitmap_offset == 112);
        assert(h.nullable != 0);
        assert(h.row_count == c.rows.len());
    } else {
        assert(h.nullable == 0);
    }
}

/// In a written file of a fixed-width type, a row that is not null has its
/// bytes at its place in the data section.
proof fn lemma_written_fixed_row(c: ColumnContent, i: int)
    requires
        c.writable(),
        0 <= i < c.rows.len(),
        c.rows[i] is Some,
        c.data_type.spec_size() is Some,
    ensures
        file_row_span(c.file(), i) is Some,
        c.file().subrange(
            file_header(c.file()).data_offset + file_row_span(c.file(), i).unwrap().0,
            file_header(c.file()).data_offset + file_row_span(c.file(), i).unwrap().1,
        ) == c.rows[i].unwrap(),
{
    reveal(file_row_span);
    lemma_file_sections(c);
    lemma_written_file_valid(c);
    let file = c.file();
    let n = c.rows.len() as int;
    let w = c.data_type.spec_size().unwrap() as int;
    let data_at = c.data_start();
    assert(rows_fit(c.rows, c.data_type, true));
    lemma_fixed_data(c.rows, c.data_type, n, i);
    assert(0 <= i * w) by (nonlinear_arith)
        requires
            0 <= i,
            0 <= w,
    ;
    assert((i + 1) * w == i * w + w) by (nonlinear_arith);
    assert(file_row_span(file, i) == Some((i * w, (i + 1) * w)));
    assert(file.subrange(data_at + i * w, data_at + (i + 1) * w) =~= c.data_section().subrange(
        i * w,
        (i + 1) * w,
    ));
}

/// In a written file of a variable-length type, entry `i` of the offsets
/// array is the total length of the first `i` rows.
pub proof fn lemma_written_offset(c: ColumnContent, i: int)
    requires
        c.writable(),
        0 <= i <= c.rows.len(),
        c.data_type.spec_is_variable_length(),
    ensures
        file_offset(c.file(), i) == Some(prefix_len(c.rows, i)),
{
    reveal(file_offset);
    lemma_file_sections(c);
    let file = c.file();
    let n = c.rows.len() as int;
    lemma_variable_data(c.rows, c.data_type, n, 0);
    lemma_prefix_len_monotone(c.rows, i, n);
    lemma_pow256_values();
    let offsets_at = c.offsets_start();
    lemma_offsets_bytes_entry(c.rows, n + 1, i);
    assert(file.subrange(offsets_at + 8 * i, offsets_at + 8 * i + 8)
        =~= c.offsets_section().subrange(8 * i, 8 * i + 8));
    lemma_le_value_of_le_bytes(prefix_len(c.rows, i), 8);
    assert(file_header(file).offsets_offset == offsets_at);
}

/// In a written file of a variable-length type, a row that is not null has
/// its bytes between its offset and the next.
proof fn lemma_written_variable_row(c: ColumnContent, i: int)
    requires
        c.writable(),
        0 <= i < c.rows.len(),
        c.rows[i] is Some,
        c.data_type.spec_is_variable_length(),
    ensures
        file_row_span(c.file(), i) is Some,
        c.file().subrange(
            file_header(c.file()).data_offset + file_row_span(c.file(), i).unwrap().0,
            file_header(c.file()).data_offset + file_row_span(c.file(), i).unwrap().1,
        ) == c.rows[i].unwrap(),
{
    reveal(file_row_span);
    lemma_file_sections(c);
    lemma_written_file_valid(c);
    lemma_written_offset(c, i);
    lemma_written_offset(c, i + 1);
    let file = c.file();
    let n = c.rows.len() as int;
    lemma_variable_data(c.rows, c.data_type, n, i);
    let start = prefix_len(c.rows, i) as int;
    let end = prefix_len(c.rows, i + 1) as int;
    let data_at = c.data_start();
    assert(file_row_span(file, i) == Some((start, end)));
    assert(file.subrange(data_at + start, data_at + end) =~= c.data_section().subrange(
        start,
        end,
    ));
}

/// Row `i` of a written file reads back as it was written: null where it
/// was null, and else with the same bytes.
pub proof fn lemma_written_row(c: ColumnContent, i: int)
    requires
        c.writable(),
        0 <= i < c.rows.len(),
    ensures
        file_is_null(c.file(), i) == (c.rows[i] is None),
        file_get_bytes(c.file(), i) == c.rows[i],
{
    reveal(file_get_bytes);
    lemma_written_null(c, i);
    lemma_written_file_valid(c);
    if c.rows[i] is Some {
        if c.data_type.spec_size() is Some {
            lemma_written_fixed_row(c, i);
        } else {
            lemma_written_variable_row(c, i);
        }
    }
}

/// Every row of a written file reads back as it was written.
pub proof fn lemma_written_rows(c: ColumnContent)
    requires
        c.writable(),
    ensures
        forall|i: int|
            0 <= i < c.rows.len() ==> #[trigger] file_get_bytes(c.file(), i) == c.rows[i],
        forall|i: int|
            0 <= i < c.rows.len() ==> #[trigger] file_is_null(c.file(), i) == (c.rows[i] is None),
{
    assert forall|i: int| 0 <= i < c.rows.len() implies #[trigger] file_get_bytes(c.file(), i)
        == c.rows[i] by {
        lemma_written_row(c, i);
    }
    assert forall|i: int| 0 <= i < c.rows.len() implies #[trigger] file_is_null(c.file(), i) == (
    c.rows[i] is None) by {
        lemma_written_row(c, i);
    }
}

/// The offsets array of a written file of a variable-length type has one
/// entry more than the column has rows; the entries do not decrease; two
/// neighbours differ by the length of the row between them, which is zero
/// for a null row; and the last entry is the size of the data section.
pub proof fn lemma_written_offsets(c: ColumnContent)
    requires
        c.writable(),
        c.data_type.spec_is_variable_length(),
    ensures
        file_header(c.file()).offsets_size == 8 * (c.rows.len() + 1),
        forall|i: int|
            0 <= i <= c.rows.len() ==> (#[trigger] file_offset(c.file(), i)) == Some(
                prefix_len(c.rows, i),
            ),
        forall|i: int|
            0 <= i < c.rows.len() ==> #[trigger] prefix_len(c.rows, i + 1) == prefix_len(c.rows, i)
                + row_len(c.rows[i]),
        file_offset(c.file(), c.rows.len() as int) == Some(
            file_header(c.file()).data_size as nat,
        ),
{
    lemma_file_sections(c);
    lemma_written_file_valid(c);
    lemma_variable_data(c.rows, c.data_type, c.rows.len() as int, 0);
    assert forall|i: int| 0 <= i <= c.rows.len() implies (#[trigger] file_offset(c.file(), i))
        == Some(prefix_len(c.rows, i)) by {
        lemma_written_offset(c, i);
    }
}

/// Whether row `i` of a file is null is what its bit in the null bitmap
/// says, and no row of a column that is not nullable is null.
pub proof fn lemma_null_is_bitmap_bit(file: Seq<u8>, i: int)
    requires
        parse_header(file) is Some,
        0 <= i < file_header(file).row_count,
    ensures
        file_header(file).nullable == 0 ==> !file_is_null(file, i),
        file_header(file).nullable != 0 && file_header(file).null_bitmap_offset + i / 8
            < file.len() ==> file_is_null(file, i) == bit_at(
            file[file_header(file).null_bitmap_offset + i / 8],
            i % 8,
        ),
{
    reveal(file_is_null);
}

/// In a file of a type of width `w`, a row that is not null and lies
/// inside the data section has the `w` bytes that start `i * w` bytes into
/// the data section.
pub proof fn lemma_fixed_row_place(file: Seq<u8>, i: int)
    requires
        valid_column_file(file),
        0 <= i < file_header(file).row_count,
        !file_is_null(file, i),
        file_data_type(file).spec_size() is Some,
        (i + 1) * file_data_type(file).spec_size().unwrap() <= file_header(file).data_size,
    ensures
        file_get_bytes(file, i) == Some(
            file.subrange(
                file_header(file).data_offset + i * file_data_type(file).spec_size().unwrap(),
                file_header(file).data_offset + (i + 1) * file_data_type(
                    file,
                ).spec_size().unwrap(),
            ),
        ),
        file_get_bytes(file, i).unwrap().len() == file_data_type(file).spec_size().unwrap(),
{
    reveal(valid_column_file);
    reveal(file_get_bytes);
    reveal(file_row_span);
    let w = file_data_type(file).spec_size().unwrap() as int;
    assert((i + 1) * w - i * w == w) by (nonlinear_arith);
    assert(0 <= i * w) by (nonlinear_arith)
        requires
            0 <= i,
            0 <= w,
    ;
}

} // verus!
