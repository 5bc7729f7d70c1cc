use membase::columnar::table::{cell_fits, column_file_name};
use membase::columnar::{
    Column, ColumnBuilder, ColumnFile, CompressionType, DataType, Field, Schema, Table,
    TableBuilder,
};
use membase::Error;

fn people_schema() -> Schema {
    Schema::new(vec![
        Field::new("id", DataType::UInt64, false),
        Field::new("age", DataType::UInt8, true),
        Field::new("active", DataType::Boolean, false),
    ])
    .unwrap()
}

fn row(id: u64, age: Option<u8>, active: bool) -> Vec<(String, Option<Vec<u8>>)> {
    vec![
        ("id".to_string(), Some(id.to_le_bytes().to_vec())),
        ("age".to_string(), age.map(|a| vec![a])),
        ("active".to_string(), Some(vec![active as u8])),
    ]
}

fn people_files() -> Vec<ColumnFile> {
    let mut b = TableBuilder::new("people", people_schema(), "db", CompressionType::Uncompressed);
    b.add_row(&row(1, Some(32), true)).unwrap();
    b.add_row(&row(2, Some(45), true)).unwrap();
    b.add_row(&row(3, Some(28), false)).unwrap();
    b.add_row(&row(4, None, true)).unwrap();
    b.add_row(&row(5, Some(39), true)).unwrap();
    b.build().unwrap()
}

#[test]
fn built_table_opens_with_equal_row_counts() {
    let files = people_files();
    assert_eq!(files.len(), 3);
    assert_eq!(files[0].name, "id.col");
    assert_eq!(files[1].name, "age.col");
    assert_eq!(files[2].name, "active.col");
    let views: Vec<Option<&[u8]>> = files.iter().map(|f| Some(&f.bytes[..])).collect();
    let t = Table::open("people", people_schema(), views).unwrap();
    assert_eq!(t.name(), "people");
    assert_eq!(t.row_count(), 5);
    assert_eq!(t.schema().field_count(), 3);
    assert_eq!(t.columns().len(), 3);
    for c in t.columns() {
        assert_eq!(c.row_count(), t.row_count());
    }
    let id = t.column("id").unwrap();
    assert_eq!(id.get_u64(0), Some(1));
    assert_eq!(id.get_u64(4), Some(5));
    let age = t.column("age").unwrap();
    assert_eq!(age.get_u8(1), Some(45));
    assert_eq!(age.get_u8(3), None);
    let active = t.column("active").unwrap();
    assert_eq!(active.get_bool(2), Some(false));
    assert!(t.column("missing").is_none());
}

#[test]
fn table_with_a_missing_file_is_rejected() {
    let files = people_files();
    let views: Vec<Option<&[u8]>> =
        vec![Some(&files[0].bytes[..]), None, Some(&files[2].bytes[..])];
    assert!(matches!(
        Table::open("people", people_schema(), views),
        Err(Error::InvalidArgument(_))
    ));
    let views: Vec<Option<&[u8]>> = vec![Some(&files[0].bytes[..]), Some(&files[1].bytes[..])];
    assert!(matches!(
        Table::open("people", people_schema(), views),
        Err(Error::InvalidArgument(_))
    ));
}

#[test]
fn table_with_unequal_row_counts_is_rejected() {
    let files = people_files();
    let mut short = ColumnBuilder::new(
        Field::new("active", DataType::Boolean, false),
        CompressionType::Uncompressed,
    );
    short.append_bool(true).unwrap();
    let short = short.to_bytes().unwrap();
    let views: Vec<Option<&[u8]>> =
        vec![Some(&files[0].bytes[..]), Some(&files[1].bytes[..]), Some(&short[..])];
    assert!(matches!(
        Table::open("people", people_schema(), views),
        Err(Error::InvalidArgument(_))
    ));
}

#[test]
fn table_with_a_damaged_file_is_rejected() {
    let files = people_files();
    let mut bad = files[1].bytes.clone();
    bad[0] = 0;
    let views: Vec<Option<&[u8]>> =
        vec![Some(&files[0].bytes[..]), Some(&bad[..]), Some(&files[2].bytes[..])];
    assert!(matches!(
        Table::open("people", people_schema(), views),
        Err(Error::InvalidArgument(_))
    ));
}

#[test]
fn table_without_fields_opens_empty() {
    let t = Table::open("none", Schema::new(vec![]).unwrap(), vec![]).unwrap();
    assert_eq!(t.row_count(), 0);
    assert_eq!(t.columns().len(), 0);
}

#[test]
fn add_row_rejects_a_missing_required_field() {
    let mut b = TableBuilder::new("people", people_schema(), "db", CompressionType::Uncompressed);
    let values = vec![("id".to_string(), Some(1u64.to_le_bytes().to_vec()))];
    assert!(matches!(b.add_row(&values), Err(Error::InvalidArgument(_))));
    let files = b.build().unwrap();
    for f in &files {
        assert_eq!(Column::open(&f.bytes).unwrap().row_count(), 0);
    }
}

#[test]
fn add_row_rejects_values_of_the_wrong_size_and_leaves_the_builder() {
    let mut b = TableBuilder::new("people", people_schema(), "db", CompressionType::Uncompressed);
    b.add_row(&row(1, Some(2), true)).unwrap();
    let mut bad = row(2, Some(3), true);
    bad[2].1 = Some(vec![1, 0]);
    assert!(matches!(b.add_row(&bad), Err(Error::InvalidArgument(_))));
    let mut bad = row(2, Some(3), true);
    bad[0].1 = Some(vec![1, 2, 3]);
    assert!(matches!(b.add_row(&bad), Err(Error::InvalidArgument(_))));
    let mut bad = row(2, Some(3), true);
    bad[0].1 = None;
    assert!(matches!(b.add_row(&bad), Err(Error::InvalidArgument(_))));
    let files = b.build().unwrap();
    for f in &files {
        assert_eq!(Column::open(&f.bytes).unwrap().row_count(), 1);
    }
}

#[test]
fn add_row_skips_a_nullable_field_that_is_not_named() {
    let mut b = TableBuilder::new("people", people_schema(), "db", CompressionType::Uncompressed);
    let values = vec![
        ("id".to_string(), Some(1u64.to_le_bytes().to_vec())),
        ("active".to_string(), Some(vec![1])),
        ("unknown".to_string(), Some(vec![1, 2, 3])),
    ];
    b.add_row(&values).unwrap();
    assert!(matches!(b.build(), Err(Error::InvalidArgument(_))));
}

#[test]
fn add_row_takes_the_first_entry_of_a_name() {
    let schema = Schema::new(vec![Field::new("v", DataType::UInt8, false)]).unwrap();
    let mut b = TableBuilder::new("t", schema, "db", CompressionType::Uncompressed);
    let values =
        vec![("v".to_string(), Some(vec![7])), ("v".to_string(), Some(vec![9]))];
    b.add_row(&values).unwrap();
    let files = b.build().unwrap();
    let c = Column::open(&files[0].bytes).unwrap();
    assert_eq!(c.row_count(), 1);
    assert_eq!(c.get_u8(0), Some(7));
}

#[test]
fn add_row_stores_every_type() {
    let schema = Schema::new(vec![
        Field::new("b", DataType::Boolean, false),
        Field::new("i8", DataType::Int8, false),
        Field::new("u8", DataType::UInt8, false),
        Field::new("i16", DataType::Int16, false),
        Field::new("u16", DataType::UInt16, false),
        Field::new("i32", DataType::Int32, false),
        Field::new("u32", DataType::UInt32, false),
        Field::new("i64", DataType::Int64, false),
        Field::new("u64", DataType::UInt64, false),
        Field::new("f32", DataType::Float32, false),
        Field::new("f64", DataType::Float64, false),
        Field::new("s", DataType::String, false),
        Field::new("bin", DataType::Binary, false),
        Field::new("d", DataType::Date, false),
        Field::new("ts", DataType::Timestamp, false),
        Field::new("fb", DataType::FixedBinary(3), false),
    ])
    .unwrap();
    let mut b = TableBuilder::new("t", schema, "db", CompressionType::Uncompressed);
    let values: Vec<(String, Option<Vec<u8>>)> = vec![
        ("b".to_string(), Some(vec![2])),
        ("i8".to_string(), Some((-5i8).to_le_bytes().to_vec())),
        ("u8".to_string(), Some(vec![200])),
        ("i16".to_string(), Some((-300i16).to_le_bytes().to_vec())),
        ("u16".to_string(), Some(60000u16.to_le_bytes().to_vec())),
        ("i32".to_string(), Some((-70000i32).to_le_bytes().to_vec())),
        ("u32".to_string(), Some(4_000_000_000u32.to_le_bytes().to_vec())),
        ("i64".to_string(), Some(i64::MIN.to_le_bytes().to_vec())),
        ("u64".to_string(), Some(u64::MAX.to_le_bytes().to_vec())),
        ("f32".to_string(), Some(1.5f32.to_le_bytes().to_vec())),
        ("f64".to_string(), Some((-2.5f64).to_le_bytes().to_vec())),
        ("s".to_string(), Some("héllo".as_bytes().to_vec())),
        ("bin".to_string(), Some(vec![0xFF, 0xFE])),
        ("d".to_string(), Some(19000i32.to_le_bytes().to_vec())),
        ("ts".to_string(), Some(1625097600000i64.to_le_bytes().to_vec())),
        ("fb".to_string(), Some(vec![1, 2, 3])),
    ];
    b.add_row(&values).unwrap();
    let files = b.build().unwrap();
    let col = |i: usize| Column::open(&files[i].bytes).unwrap();
    assert_eq!(col(0).get_bool(0), Some(true));
    assert_eq!(col(0).get_bytes(0), Some(&[1u8][..]));
    assert_eq!(col(1).get_i8(0), Some(-5));
    assert_eq!(col(2).get_u8(0), Some(200));
    assert_eq!(col(3).get_i16(0), Some(-300));
    assert_eq!(col(4).get_u16(0), Some(60000));
    assert_eq!(col(5).get_i32(0), Some(-70000));
    assert_eq!(col(6).get_u32(0), Some(4_000_000_000));
    assert_eq!(col(7).get_i64(0), Some(i64::MIN));
    assert_eq!(col(8).get_u64(0), Some(u64::MAX));
    assert_eq!(col(9).get_f32_bits(0).map(f32::from_bits), Some(1.5));
    assert_eq!(col(10).get_f64_bits(0).map(f64::from_bits), Some(-2.5));
    assert_eq!(col(11).get_string(0), Some("héllo"));
    assert_eq!(col(12).get_binary(0), Some(&[0xFFu8, 0xFE][..]));
    assert_eq!(col(13).get_date(0), Some(19000));
    assert_eq!(col(14).get_timestamp(0), Some(1625097600000));
    assert_eq!(col(15).get_binary(0), Some(&[1u8, 2, 3][..]));
}

#[test]
fn add_row_rejects_invalid_strings_and_decimals() {
    let schema = Schema::new(vec![Field::new("s", DataType::String, false)]).unwrap();
    let mut b = TableBuilder::new("t", schema, "db", CompressionType::Uncompressed);
    let values = vec![("s".to_string(), Some(vec![0xFF, 0xFF]))];
    assert!(matches!(b.add_row(&values), Err(Error::InvalidArgument(_))));

    let schema = Schema::new(vec![Field::new("d", DataType::Decimal(10, 2), false)]).unwrap();
    let mut b = TableBuilder::new("t", schema, "db", CompressionType::Uncompressed);
    let values = vec![("d".to_string(), Some(vec![0; 16]))];
    assert!(matches!(b.add_row(&values), Err(Error::InvalidArgument(_))));
}

#[test]
fn cell_fits_checks_the_width() {
    assert!(cell_fits(&DataType::Boolean, &[1]));
    assert!(!cell_fits(&DataType::Boolean, &[]));
    assert!(cell_fits(&DataType::UInt32, &[1, 2, 3, 4]));
    assert!(!cell_fits(&DataType::UInt32, &[1, 2, 3]));
    assert!(cell_fits(&DataType::Binary, &[]));
    assert!(cell_fits(&DataType::FixedBinary(0), &[]));
    assert!(!cell_fits(&DataType::FixedBinary(2), &[1]));
    assert!(cell_fits(&DataType::String, b"ok"));
    assert!(!cell_fits(&DataType::String, &[0xC0]));
    assert!(!cell_fits(&DataType::Decimal(1, 1), &[0; 16]));
}

#[test]
fn column_file_names() {
    assert_eq!(column_file_name("id"), "id.col");
    assert_eq!(column_file_name(""), ".col");
}

#[test]
fn table_builder_keeps_what_it_was_given() {
    let b = TableBuilder::new("people", people_schema(), "some/dir", CompressionType::LZ4);
    assert_eq!(b.name(), "people");
    assert_eq!(b.base_dir(), "some/dir");
    assert_eq!(b.schema().field_count(), 3);
    let files = b.build().unwrap();
    assert_eq!(Column::open(&files[0].bytes).unwrap().compression(), CompressionType::LZ4);
}
