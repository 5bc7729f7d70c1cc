//! Tables: one column for every field of a schema, all of the same length.

use crate::columnar::column::{Column, ColumnBuilder};
use crate::columnar::compression::CompressionType;
use crate::columnar::encoding::{
    bool_bytes, decode_signed, lemma_int_bytes_of_value, lemma_pow256_values,
    lemma_uint_bytes_of_value, read_uint_le,
};
use crate::columnar::header::type_tag;
use crate::columnar::layout::{
    file_header, lemma_written_file_valid, valid_column_file, ColumnContent,
};
use crate::columnar::schema::{DataType, Field, Schema};
use crate::error::Error;
use crate::utils::text::{str_eq, str_from_utf8};
use vstd::prelude::*;
use vstd::string::StringExecFns;
use vstd::utf8::valid_utf8;

verus! {

/// Whether `files` can be opened as the columns of a table of `schema`:
/// there is one file for every field, each passes the checks of a column
/// file, and all give the same number of rows.
pub open spec fn table_files_valid(schema: Schema, files: Seq<Option<&[u8]>>) -> bool {
    &&& files.len() == schema.spec_fields().len()
    &&& forall|i: int|
        0 <= i < files.len() ==> (#[trigger] files[i]) is Some && valid_column_file(
            files[i].unwrap()@,
        )
    &&& forall|i: int|
        0 <= i < files.len() ==> file_header((#[trigger] files[i]).unwrap()@).row_count
            == file_header(files[0].unwrap()@).row_count
}

/// The name of the file that holds the column of the field `name`.
pub fn column_file_name(name: &str) -> (r: String)
    ensures
        r@ == name@ + ".col"@,
{
    let s: String = name.to_owned();
    s.concat(".col")
}

/// A table: a schema and one opened column for each of its fields.
pub struct Table<'a> {
    name: String,
    schema: Schema,
    columns: Vec<Column<'a>>,
    row_count: u64,
}

impl<'a> Table<'a> {
    /// The invariant of a table: every field has its column, and all
    /// columns have as many rows as the table.
    #[verifier::type_invariant]
    pub closed spec fn wf(self) -> bool {
        &&& self.schema.wf()
        &&& self.columns@.len() == self.schema.spec_fields().len()
        &&& forall|i: int| 0 <= i < self.columns@.len() ==> (#[trigger] self.columns@[i]).wf()
        &&& forall|i: int|
            0 <= i < self.columns@.len() ==> (#[trigger] self.columns@[i]).spec_row_count()
                == self.row_count
    }

    /// The name of the table.
    pub closed spec fn spec_name(&self) -> Seq<char> {
        self.name@
    }

    /// The schema of the table.
    pub closed spec fn spec_schema(&self) -> Schema {
        self.schema
    }

    /// The columns, in the order of the fields of the schema.
    pub closed spec fn spec_columns(&self) -> Seq<Column<'a>> {
        self.columns@
    }

    /// The number of rows.
    pub closed spec fn spec_row_count(&self) -> u64 {
        self.row_count
    }

    /// The column of the field named `name`, if the schema has that field.
    pub open spec fn spec_column(&self, name: Seq<char>) -> Option<Column<'a>> {
        match self.spec_schema().spec_field_index(name) {
            Some(i) => Some(self.spec_columns()[i]),
            None => None,
        }
    }

    /// In a well-formed table every field has its column, and every column
    /// has as many rows as the table.
    pub proof fn lemma_row_counts(self)
        requires
            self.wf(),
        ensures
            self.spec_schema().wf(),
            self.spec_columns().len() == self.spec_schema().spec_fields().len(),
            forall|i: int|
                0 <= i < self.spec_columns().len() ==> (#[trigger] self.spec_columns()[i]).wf()
                    && self.spec_columns()[i].spec_row_count() == self.spec_row_count(),
    {
    }

    /// Opens the table of `schema` whose column files are `files`, one for
    /// each field and in their order; `None` stands for a file that is
    /// missing. Every file must open as a column, and all columns must have
    /// the same number of rows.
    pub fn open(name: &str, schema: Schema, files: Vec<Option<&'a [u8]>>) -> (r: Result<
        Table<'a>,
        Error,
    >)
        ensures
            match r {
                Ok(t) => {
                    &&& table_files_valid(schema, files@)
                    &&& t.wf()
                    &&& t.spec_name() == name@
                    &&& t.spec_schema() == schema
                    &&& t.spec_columns().len() == files@.len()
                    &&& forall|i: int|
                        0 <= i < files@.len() ==> (#[trigger] t.spec_columns()[i]).file()
                            == files@[i].unwrap()@
                    &&& files@.len() > 0 ==> t.spec_row_count() == file_header(
                        files@[0].unwrap()@,
                    ).row_count
                    &&& files@.len() == 0 ==> t.spec_row_count() == 0
                },
                Err(e) => !table_files_valid(schema, files@) && e is InvalidArgument,
            },
    {
        proof {
            use_type_invariant(&schema);
        }
        if files.len() != schema.field_count() {
            return Err(
                Error::InvalidArgument("Table needs one column file for each field".to_owned()),
            );
        }
        let mut columns: Vec<Column<'a>> = Vec::new();
        let mut row_count: u64 = 0;
        let mut i: usize = 0;
        while i < files.len()
            invariant
                i <= files@.len(),
                columns@.len() == i,
                forall|j: int|
                    0 <= j < i ==> (#[trigger] files@[j]) is Some && valid_column_file(
                        files@[j].unwrap()@,
                    ),
                forall|j: int|
                    0 <= j < i ==> (#[trigger] columns@[j]).wf() && columns@[j].file()
                        == files@[j].unwrap()@ && columns@[j].spec_row_count() == row_count,
                i == 0 ==> row_count == 0,
            decreases files@.len() - i,
        {
            let bytes: &'a [u8] = match files[i] {
                Some(b) => b,
                None => {
                    return Err(Error::InvalidArgument("Column file does not exist".to_owned()));
                },
            };
            let column = match Column::open(bytes) {
                Ok(c) => c,
                Err(e) => {
                    return Err(e);
                },
            };
            if i == 0 {
                row_count = column.row_count();
            } else if column.row_count() != row_count {
                proof {
                    assert(columns@[0].file() == files@[0].unwrap()@);
                }
                return Err(
                    Error::InvalidArgument("Columns differ in their number of rows".to_owned()),
                );
            }
            columns.push(column);
            i += 1;
        }
        proof {
            if files@.len() > 0 {
                assert(columns@[0].file() == files@[0].unwrap()@);
            }
            assert forall|j: int| 0 <= j < files@.len() implies file_header(
                (#[trigger] files@[j]).unwrap()@,
            ).row_count == file_header(files@[0].unwrap()@).row_count by {
                assert(columns@[j].file() == files@[j].unwrap()@);
            }
        }
        Ok(Table { name: name.to_owned(), schema, columns, row_count })
    }

    /// The name of the table.
    pub fn name(&self) -> (r: &str)
        ensures
            r@ == self.spec_name(),
    {
        self.name.as_str()
    }

    /// The schema of the table.
    pub fn schema(&self) -> (r: &Schema)
        ensures
            *r == self.spec_schema(),
            r.wf(),
    {
        proof {
            use_type_invariant(self);
        }
        &self.schema
    }

    /// The number of rows.
    pub fn row_count(&self) -> (r: u64)
        ensures
            r == self.spec_row_count(),
    {
        self.row_count
    }

    /// The column of the field named `name`, if the schema has that field.
    pub fn column(&self, name: &str) -> (r: Option<&Column<'a>>)
        ensures
            match r {
                Some(c) => self.spec_column(name@) == Some(*c) && c.wf() && c.spec_row_count()
                    == self.spec_row_count(),
                None => self.spec_column(name@) is None,
            },
    {
        proof {
            use_type_invariant(self);
        }
        match self.schema.field_index(name) {
            Some(i) => Some(&self.columns[i]),
            None => None,
        }
    }

    /// The columns, in the order of the fields of the schema.
    pub fn columns(&self) -> (r: &Vec<Column<'a>>)
        ensures
            r@ == self.spec_columns(),
            r@.len() == self.spec_schema().spec_fields().len(),
            forall|i: int|
                0 <= i < r@.len() ==> (#[trigger] r@[i]).wf() && r@[i].spec_row_count()
                    == self.spec_row_count(),
    {
        proof {
            use_type_invariant(self);
        }
        &self.columns
    }
}

/// The first index at or after `from` whose entry is named `name`.
pub open spec fn first_value(values: Seq<(String, Option<Vec<u8>>)>, name: Seq<char>, from: int) -> Option<
    int,
>
    decreases values.len() - from,
{
    if from < 0 || from >= values.len() {
        None
    } else if values[from].0@ == name {
        Some(from)
    } else {
        first_value(values, name, from + 1)
    }
}

/// The bytes that a value given for a column of `data_type` is stored as;
/// `None` where the value cannot be a value of that type. A value of a
/// fixed-width type must have the width of the type, a boolean is stored as
/// 0 or 1, a string must be valid UTF-8, and decimals are not taken.
pub open spec fn cell_bytes(data_type: DataType, value: Seq<u8>) -> Option<Seq<u8>> {
    match data_type {
        DataType::Boolean => if value.len() == 1 {
            Some(bool_bytes(value[0] != 0))
        } else {
            None
        },
        DataType::String => if valid_utf8(value) {
            Some(value)
        } else {
            None
        },
        DataType::Binary => Some(value),
        DataType::Decimal(_, _) => None,
        _ => match data_type.spec_size() {
            Some(width) => if value.len() == width {
                Some(value)
            } else {
                None
            },
            None => None,
        },
    }
}

/// What a row does to one column.
pub enum CellAction {
    /// The row does not name the column: nothing is added.
    Skip,
    /// A row is added, null or with the given bytes.
    Append(Option<Seq<u8>>),
    /// The row cannot be added.
    Reject,
}

/// What a row of `values` does to the column of `field`. The first entry
/// named as the field counts. A field that is not nullable must be given,
/// and not as null; a given value must be a value of the type of the field.
pub open spec fn cell_action(field: Field, values: Seq<(String, Option<Vec<u8>>)>) -> CellAction {
    match first_value(values, field.name@, 0) {
        None => if field.nullable {
            CellAction::Skip
        } else {
            CellAction::Reject
        },
        Some(k) => match values[k].1 {
            None => if field.nullable {
                CellAction::Append(None)
            } else {
                CellAction::Reject
            },
            Some(v) => match cell_bytes(field.data_type, v@) {
                Some(b) => CellAction::Append(Some(b)),
                None => CellAction::Reject,
            },
        },
    }
}

/// Whether a value can be a value of a column of `data_type`.
pub fn cell_fits(data_type: &DataType, value: &[u8]) -> (r: bool)
    ensures
        r == cell_bytes(*data_type, value@).is_some(),
{
    match data_type {
        DataType::String => str_from_utf8(value).is_some(),
        DataType::Binary => true,
        DataType::Decimal(_, _) => false,
        _ => match data_type.size() {
            Some(width) => value.len() == width,
            None => false,
        },
    }
}

/// Adds `value` to a builder as a value of the type of its column.
fn append_cell(builder: &mut ColumnBuilder, value: &[u8]) -> (r: Result<(), Error>)
    requires
        old(builder).wf(),
        old(builder)@.rows.len() < u64::MAX,
        cell_bytes(old(builder)@.data_type, value@) is Some,
    ensures
        r is Ok,
        final(builder).wf(),
        final(builder).grown(old(builder), cell_bytes(old(builder)@.data_type, value@)),
{
    proof {
        lemma_pow256_values();
        builder.lemma_view_field();
        lemma_uint_bytes_of_value(value@);
        if value@.len() > 0 {
            lemma_int_bytes_of_value(value@);
        }
    }
    let data_type: DataType = builder.field().data_type;
    match data_type {
        DataType::Boolean => builder.append_bool(value[0] != 0),
        DataType::Int8 => {
            assert(value@.subrange(0, 1) =~= value@);
            let v: i64 = decode_signed(read_uint_le(value, 0, 1), 1);
            builder.append_i8(v as i8)
        },
        DataType::UInt8 => {
            assert(value@.subrange(0, 1) =~= value@);
            builder.append_u8(read_uint_le(value, 0, 1) as u8)
        },
        DataType::Int16 => {
            assert(value@.subrange(0, 2) =~= value@);
            let v: i64 = decode_signed(read_uint_le(value, 0, 2), 2);
            builder.append_i16(v as i16)
        },
        DataType::UInt16 => {
            assert(value@.subrange(0, 2) =~= value@);
            builder.append_u16(read_uint_le(value, 0, 2) as u16)
        },
        DataType::Int32 => {
            assert(value@.subrange(0, 4) =~= value@);
            let v: i64 = decode_signed(read_uint_le(value, 0, 4), 4);
            builder.append_i32(v as i32)
        },
        DataType::UInt32 => {
            assert(value@.subrange(0, 4) =~= value@);
            builder.append_u32(read_uint_le(value, 0, 4) as u32)
        },
        DataType::Int64 => {
            assert(value@.subrange(0, 8) =~= value@);
            let v: i64 = decode_signed(read_uint_le(value, 0, 8), 8);
            builder.append_i64(v)
        },
        DataType::UInt64 => {
            assert(value@.subrange(0, 8) =~= value@);
            builder.append_u64(read_uint_le(value, 0, 8))
        },
        DataType::Float32 => {
            assert(value@.subrange(0, 4) =~= value@);
            builder.append_f32_bits(read_uint_le(value, 0, 4) as u32)
        },
        DataType::Float64 => {
            assert(value@.subrange(0, 8) =~= value@);
            builder.append_f64_bits(read_uint_le(value, 0, 8))
        },
        DataType::String => {
            match str_from_utf8(value) {
                Some(text) => builder.append_string(text),
                None => Err(Error::InvalidArgument("Invalid UTF-8 string".to_owned())),
            }
        },
        DataType::Binary => builder.append_binary(value),
        DataType::FixedBinary(_) => builder.append_binary(value),
        DataType::Date => {
            assert(value@.subrange(0, 4) =~= value@);
            let v: i64 = decode_signed(read_uint_le(value, 0, 4), 4);
            builder.append_date(v as i32)
        },
        DataType::Timestamp => {
            assert(value@.subrange(0, 8) =~= value@);
            let v: i64 = decode_signed(read_uint_le(value, 0, 8), 8);
            builder.append_timestamp(v)
        },
        DataType::Decimal(_, _) => Err(
            Error::InvalidArgument("Decimal values are not supported".to_owned()),
        ),
    }
}

/// `first_value` finds an entry with the name if there is one at or after `from`.
proof fn lemma_first_value(values: Seq<(String, Option<Vec<u8>>)>, name: Seq<char>, from: int)
    requires
        0 <= from,
    ensures
        match first_value(values, name, from) {
            Some(k) => from <= k < values.len() && values[k].0@ == name,
            None => true,
        },
    decreases values.len() - from,
{
    if from < values.len() && values[from].0@ != name {
        lemma_first_value(values, name, from + 1);
    }
}

/// The index of the first entry of `values` named `name`.
fn find_value(values: &Vec<(String, Option<Vec<u8>>)>, name: &str) -> (r: Option<usize>)
    ensures
        match r {
            Some(k) => first_value(values@, name@, 0) == Some(k as int) && k < values@.len(),
            None => first_value(values@, name@, 0) is None,
        },
{
    let mut k: usize = 0;
    proof {
        lemma_first_value(values@, name@, 0);
    }
    while k < values.len()
        invariant
            k <= values@.len(),
            first_value(values@, name@, 0) == first_value(values@, name@, k as int),
        decreases values@.len() - k,
    {
        if str_eq(values[k].0.as_str(), name) {
            return Some(k);
        }
        k += 1;
    }
    None
}

/// What was decided for one column before a row is added.
enum Planned {
    /// Nothing is added.
    Skip,
    /// A null row is added.
    Null,
    /// The value of the entry at the index is added.
    Value(usize),
}

/// Whether `planned` is what `values` do to the column of `field`.
spec fn planned_is(planned: Planned, field: Field, values: Seq<(String, Option<Vec<u8>>)>) -> bool {
    match planned {
        Planned::Skip => cell_action(field, values) is Skip,
        Planned::Null => cell_action(field, values) == CellAction::Append(None),
        Planned::Value(k) => k < values.len() && values[k as int].1 is Some && cell_bytes(
            field.data_type,
            values[k as int].1.unwrap()@,
        ) is Some && cell_action(field, values) == CellAction::Append(
            cell_bytes(field.data_type, values[k as int].1.unwrap()@),
        ),
    }
}

/// One column file of a table that was built: its name and its bytes.
pub struct ColumnFile {
    /// The name of the file: the name of the field and `.col`.
    pub name: String,
    /// The bytes of the file.
    pub bytes: Vec<u8>,
}

/// Collects rows for all columns of a table.
pub struct TableBuilder {
    name: String,
    schema: Schema,
    column_builders: Vec<ColumnBuilder>,
    base_dir: String,
    compression: CompressionType,
}

impl TableBuilder {
    /// The invariant of a table builder: every field of the schema has its
    /// column builder.
    pub closed spec fn wf(&self) -> bool {
        &&& self.schema.wf()
        &&& self.column_builders@.len() == self.schema.spec_fields().len()
        &&& forall|i: int|
            0 <= i < self.column_builders@.len() ==> (#[trigger] self.column_builders@[i]).wf()
                && self.column_builders@[i].spec_field()@ == self.schema.spec_fields()[i]@
    }

    /// The schema of the table.
    pub closed spec fn spec_schema(&self) -> Schema {
        self.schema
    }

    /// The column builders, in the order of the fields of the schema.
    pub closed spec fn spec_builders(&self) -> Seq<ColumnBuilder> {
        self.column_builders@
    }

    /// The name of the table.
    pub closed spec fn spec_name(&self) -> Seq<char> {
        self.name@
    }

    /// The directory that was named for the files of the table.
    pub closed spec fn spec_base_dir(&self) -> Seq<char> {
        self.base_dir@
    }

    /// Whether a row of `values` cannot be added: some column rejects it.
    pub open spec fn rejects(&self, values: Seq<(String, Option<Vec<u8>>)>) -> bool {
        exists|i: int|
            0 <= i < self.spec_builders().len() && cell_action(
                #[trigger] self.spec_schema().spec_fields()[i],
                values,
            ) is Reject
    }

    /// Whether a column that a row of `values` adds to is full.
    pub open spec fn overflows(&self, values: Seq<(String, Option<Vec<u8>>)>) -> bool {
        exists|i: int|
            0 <= i < self.spec_builders().len() && cell_action(
                #[trigger] self.spec_schema().spec_fields()[i],
                values,
            ) is Append && self.spec_builders()[i]@.rows.len() == u64::MAX
    }

    /// In a well-formed table builder every field has its column builder.
    pub proof fn lemma_wf(&self)
        requires
            self.wf(),
        ensures
            self.spec_schema().wf(),
            self.spec_builders().len() == self.spec_schema().spec_fields().len(),
            forall|i: int|
                0 <= i < self.spec_builders().len() ==> (#[trigger] self.spec_builders()[i]).wf()
                    && self.spec_builders()[i]@.data_type
                    == self.spec_schema().spec_fields()[i].data_type
                    && self.spec_builders()[i]@.nullable
                    == self.spec_schema().spec_fields()[i].nullable,
    {
        assert forall|i: int| 0 <= i < self.spec_builders().len() implies (
        #[trigger] self.spec_builders()[i]).wf() && self.spec_builders()[i]@.data_type
            == self.spec_schema().spec_fields()[i].data_type && self.spec_builders()[i]@.nullable
            == self.spec_schema().spec_fields()[i].nullable by {
            self.spec_builders()[i].lemma_view_field();
        }
    }

    /// A table builder without rows, with one column builder for each field.
    pub fn new(name: &str, schema: Schema, base_dir: &str, compression: CompressionType) -> (r:
        TableBuilder)
        ensures
            r.wf(),
            r.spec_name() == name@,
            r.spec_base_dir() == base_dir@,
            r.spec_schema() == schema,
            r.spec_builders().len() == schema.spec_fields().len(),
            forall|i: int|
                0 <= i < r.spec_builders().len() ==> (#[trigger] r.spec_builders()[i])@ == (
                ColumnContent {
                    data_type: schema.spec_fields()[i].data_type,
                    nullable: schema.spec_fields()[i].nullable,
                    compression,
                    rows: Seq::empty(),
                }),
    {
        proof {
            use_type_invariant(&schema);
        }
        let mut column_builders: Vec<ColumnBuilder> = Vec::new();
        let mut i: usize = 0;
        {
            let fields = schema.fields();
            while i < fields.len()
                invariant
                    i <= fields@.len(),
                    fields@ == schema.spec_fields(),
                    column_builders@.len() == i,
                    forall|j: int|
                        0 <= j < i ==> (#[trigger] column_builders@[j]).wf()
                            && column_builders@[j].spec_field()@ == fields@[j]@
                            && column_builders@[j]@ == (ColumnContent {
                            data_type: fields@[j].data_type,
                            nullable: fields@[j].nullable,
                            compression,
                            rows: Seq::empty(),
                        }),
                decreases fields@.len() - i,
            {
                let builder = ColumnBuilder::new(fields[i].clone(), compression);
                column_builders.push(builder);
                i += 1;
            }
        }
        TableBuilder {
            name: name.to_owned(),
            schema,
            column_builders,
            base_dir: base_dir.to_owned(),
            compression,
        }
    }

    /// The name of the table.
    pub fn name(&self) -> (r: &str)
        ensures
            r@ == self.spec_name(),
    {
        self.name.as_str()
    }

    /// The directory that was named for the files of the table.
    pub fn base_dir(&self) -> (r: &str)
        ensures
            r@ == self.spec_base_dir(),
    {
        self.base_dir.as_str()
    }

    /// The schema of the table.
    pub fn schema(&self) -> (r: &Schema)
        ensures
            *r == self.spec_schema(),
    {
        &self.schema
    }

    /// What adding a row of `values` did to column `i`.
    pub open spec fn row_added(
        &self,
        before: &TableBuilder,
        values: Seq<(String, Option<Vec<u8>>)>,
        i: int,
    ) -> bool {
        match cell_action(self.spec_schema().spec_fields()[i], values) {
            CellAction::Append(row) => self.spec_builders()[i].grown(
                &before.spec_builders()[i],
                row,
            ),
            _ => self.spec_builders()[i] == before.spec_builders()[i],
        }
    }

    /// Adds a row: `values` names fields and gives each a value or null.
    /// Every column whose field is named gets one row; a column whose field
    /// is not named gets none. The row is added to all of them or, where a
    /// column rejects its value or is full, to none.
    pub fn add_row(&mut self, values: &Vec<(String, Option<Vec<u8>>)>) -> (r: Result<(), Error>)
        requires
            old(self).wf(),
        ensures
            final(self).wf(),
            final(self).spec_schema() == old(self).spec_schema(),
            final(self).spec_name() == old(self).spec_name(),
            final(self).spec_base_dir() == old(self).spec_base_dir(),
            final(self).spec_builders().len() == old(self).spec_builders().len(),
            match r {
                Ok(_) => !old(self).rejects(values@) && !old(self).overflows(values@)
                    && forall|i: int|
                    0 <= i < old(self).spec_builders().len() ==> final(self).row_added(
                        old(self),
                        values@,
                        i,
                    ),
                Err(e) => final(self).spec_builders() == old(self).spec_builders() && if old(
                    self,
                ).rejects(values@) {
                    e is InvalidArgument
                } else {
                    old(self).overflows(values@) && e is SizeExceedsSystemLimit
                },
            },
    {
        let n: usize = self.column_builders.len();
        let ghost fields = self.schema.spec_fields();
        let ghost before = self.column_builders@;
        let mut plan: Vec<Planned> = Vec::new();
        let mut full: bool = false;
        let mut i: usize = 0;
        while i < n
            invariant
                i <= n,
                n == self.column_builders@.len(),
                self.wf(),
                *self == *old(self),
                fields == self.schema.spec_fields(),
                before == self.column_builders@,
                plan@.len() == i,
                forall|j: int| 0 <= j < i ==> planned_is(#[trigger] plan@[j], fields[j], values@),
                full <==> exists|j: int|
                    0 <= j < i && cell_action(#[trigger] fields[j], values@) is Append
                        && before[j]@.rows.len() == u64::MAX,
            decreases n - i,
        {
            let field: &Field = &self.schema.fields()[i];
            let planned: Planned = match find_value(values, field.name.as_str()) {
                None => {
                    if field.nullable {
                        Planned::Skip
                    } else {
                        assert(cell_action(fields[i as int], values@) is Reject);
                        return Err(Error::InvalidArgument("Missing required field".to_owned()));
                    }
                },
                Some(k) => match &values[k].1 {
                    None => {
                        if field.nullable {
                            Planned::Null
                        } else {
                            assert(cell_action(fields[i as int], values@) is Reject);
                            return Err(
                                Error::InvalidArgument("Field is not nullable".to_owned()),
                            );
                        }
                    },
                    Some(v) => {
                        if cell_fits(&field.data_type, v.as_slice()) {
                            Planned::Value(k)
                        } else {
                            assert(cell_action(fields[i as int], values@) is Reject);
                            return Err(
                                Error::InvalidArgument("Invalid value for field".to_owned()),
                            );
                        }
                    },
                },
            };
            let adds: bool = match planned {
                Planned::Skip => false,
                _ => true,
            };
            if adds && self.column_builders[i].row_count() == u64::MAX {
                full = true;
            }
            plan.push(planned);
            i += 1;
        }
        proof {
            assert forall|j: int| 0 <= j < n implies !(cell_action(
                #[trigger] fields[j],
                values@,
            ) is Reject) by {
                assert(planned_is(plan@[j], fields[j], values@));
            }
            assert(!self.rejects(values@));
        }
        if full {
            return Err(Error::SizeExceedsSystemLimit);
        }
        proof {
            assert(!self.overflows(values@));
            assert forall|j: int|
                0 <= j < n && cell_action(
                    #[trigger] fields[j],
                    values@,
                ) is Append implies before[j]@.rows.len() < u64::MAX by {
                assert(self.column_builders@[j].wf());
                before[j].lemma_wf_rows();
            }
        }
        let mut i: usize = 0;
        while i < n
            invariant
                i <= n,
                n == self.column_builders@.len(),
                n == before.len(),
                n == fields.len(),
                old(self).wf(),
                before == old(self).column_builders@,
                self.schema == old(self).schema,
                self.name == old(self).name,
                self.base_dir == old(self).base_dir,
                fields == self.schema.spec_fields(),
                plan@.len() == n,
                forall|j: int| 0 <= j < n ==> planned_is(#[trigger] plan@[j], fields[j], values@),
                forall|j: int|
                    0 <= j < n && cell_action(#[trigger] fields[j], values@) is Append
                        ==> before[j]@.rows.len() < u64::MAX,
                forall|j: int|
                    0 <= j < i ==> (#[trigger] self.column_builders@[j]).wf() && match cell_action(
                        fields[j],
                        values@,
                    ) {
                        CellAction::Append(row) => self.column_builders@[j].grown(&before[j], row),
                        _ => self.column_builders@[j] == before[j],
                    },
                forall|j: int| i <= j < n ==> #[trigger] self.column_builders@[j] == before[j],
            decreases n - i,
        {
            proof {
                old(self).lemma_wf();
                assert(planned_is(plan@[i as int], fields[i as int], values@));
            }
            match &plan[i] {
                Planned::Skip => {},
                Planned::Null => {
                    match self.column_builders[i].append_null() {
                        Ok(_) => {},
                        Err(e) => {
                            return Err(e);
                        },
                    }
                },
                Planned::Value(k) => {
                    match &values[*k].1 {
                        Some(v) => {
                            match append_cell(&mut self.column_builders[i], v.as_slice()) {
                                Ok(_) => {},
                                Err(e) => {
                                    return Err(e);
                                },
                            }
                        },
                        None => {},
                    }
                },
            }
            i += 1;
        }
        Ok(())
    }

    /// Whether all columns have the same number of rows.
    pub open spec fn row_counts_agree(&self) -> bool {
        forall|i: int|
            0 <= i < self.spec_builders().len() ==> (#[trigger] self.spec_builders()[i])@.rows.len()
                == self.spec_builders()[0]@.rows.len()
    }

    /// The first column that cannot be written, if there is one.
    pub open spec fn first_unwritable(&self, i: int) -> bool {
        &&& 0 <= i < self.spec_builders().len()
        &&& !self.spec_builders()[i]@.writable()
        &&& forall|j: int| 0 <= j < i ==> (#[trigger] self.spec_builders()[j])@.writable()
    }

    /// The files of the table: for each field the column file of its
    /// column, named after the field. Fails where the columns differ in
    /// their number of rows, or a column cannot be written. The files
    /// that come back open as the columns of a table.
    pub fn build(&self) -> (r: Result<Vec<ColumnFile>, Error>)
        requires
            self.wf(),
        ensures
            match r {
                Ok(files) => {
                    &&& self.row_counts_agree()
                    &&& files@.len() == self.spec_builders().len()
                    &&& forall|i: int|
                        0 <= i < files@.len() ==> {
                            &&& (#[trigger] files@[i]).name@
                                == self.spec_schema().spec_fields()[i].name@ + ".col"@
                            &&& self.spec_builders()[i]@.writable()
                            &&& files@[i].bytes@ == self.spec_builders()[i]@.file()
                            &&& valid_column_file(files@[i].bytes@)
                            &&& file_header(files@[i].bytes@).row_count
                                == self.spec_builders()[0]@.rows.len()
                        }
                },
                Err(e) => if !self.row_counts_agree() {
                    e is InvalidArgument
                } else {
                    exists|i: int|
                        self.first_unwritable(i) && if type_tag(self.spec_builders()[i]@.data_type)
                            is None {
                            e is InvalidArgument
                        } else {
                            e is SizeExceedsSystemLimit
                        }
                },
            },
    {
        let n: usize = self.column_builders.len();
        let mut i: usize = 1;
        while i < n
            invariant
                1 <= i,
                n == self.column_builders@.len(),
                self.wf(),
                forall|j: int|
                    0 <= j < i && j < n ==> (#[trigger] self.column_builders@[j])@.rows.len()
                        == self.column_builders@[0]@.rows.len(),
            decreases n - i,
        {
            if self.column_builders[i].row_count() != self.column_builders[0].row_count() {
                return Err(
                    Error::InvalidArgument("Columns differ in their number of rows".to_owned()),
                );
            }
            i += 1;
        }
        let mut files: Vec<ColumnFile> = Vec::new();
        let mut i: usize = 0;
        while i < n
            invariant
                i <= n,
                n == self.column_builders@.len(),
                self.wf(),
                self.row_counts_agree(),
                files@.len() == i,
                forall|j: int| 0 <= j < i ==> (#[trigger] self.column_builders@[j])@.writable(),
                forall|j: int|
                    0 <= j < i ==> {
                        &&& (#[trigger] files@[j]).name@ == self.schema.spec_fields()[j].name@
                            + ".col"@
                        &&& self.column_builders@[j]@.writable()
                        &&& files@[j].bytes@ == self.column_builders@[j]@.file()
                        &&& valid_column_file(files@[j].bytes@)
                        &&& file_header(files@[j].bytes@).row_count
                            == self.column_builders@[0]@.rows.len()
                    },
            decreases n - i,
        {
            let bytes: Vec<u8> = match self.column_builders[i].to_bytes() {
                Ok(b) => b,
                Err(e) => {
                    proof {
                        assert(self.first_unwritable(i as int));
                    }
                    return Err(e);
                },
            };
            proof {
                lemma_written_file_valid(self.column_builders@[i as int]@);
            }
            let name: String = column_file_name(self.schema.fields()[i].name.as_str());
            files.push(ColumnFile { name, bytes });
            i += 1;
        }
        Ok(files)
    }
}

} // verus!
