use membase::columnar::{CompressionType, Compression, DataType, Field, Metadata, NoCompression, Schema};
use membase::Error;

#[test]
fn sizes_of_the_types() {
    assert_eq!(DataType::Boolean.size(), Some(1));
    assert_eq!(DataType::Int8.size(), Some(1));
    assert_eq!(DataType::UInt8.size(), Some(1));
    assert_eq!(DataType::Int16.size(), Some(2));
    assert_eq!(DataType::UInt16.size(), Some(2));
    assert_eq!(DataType::Int32.size(), Some(4));
    assert_eq!(DataType::UInt32.size(), Some(4));
    assert_eq!(DataType::Int64.size(), Some(8));
    assert_eq!(DataType::UInt64.size(), Some(8));
    assert_eq!(DataType::Float32.size(), Some(4));
    assert_eq!(DataType::Float64.size(), Some(8));
    assert_eq!(DataType::String.size(), None);
    assert_eq!(DataType::Binary.size(), None);
    assert_eq!(DataType::Date.size(), Some(4));
    assert_eq!(DataType::Timestamp.size(), Some(8));
    assert_eq!(DataType::FixedBinary(7).size(), Some(7));
    assert_eq!(DataType::Decimal(10, 2).size(), Some(16));
}

#[test]
fn classes_of_the_types() {
    assert!(DataType::Int8.is_numeric() && DataType::Int8.is_integer());
    assert!(DataType::UInt64.is_numeric() && DataType::UInt64.is_integer());
    assert!(DataType::Float32.is_numeric() && DataType::Float32.is_float());
    assert!(!DataType::Float64.is_integer());
    assert!(DataType::Decimal(1, 1).is_numeric());
    assert!(!DataType::Decimal(1, 1).is_integer() && !DataType::Decimal(1, 1).is_float());
    assert!(!DataType::Boolean.is_numeric());
    assert!(!DataType::Date.is_numeric() && !DataType::Timestamp.is_integer());
    assert!(DataType::String.is_variable_length() && DataType::Binary.is_variable_length());
    assert!(!DataType::FixedBinary(3).is_variable_length());
    assert!(!DataType::String.is_numeric());
}

#[test]
fn fields() {
    let f = Field::new("id", DataType::UInt64, false);
    assert_eq!(f.name, "id");
    assert_eq!(f.data_type, DataType::UInt64);
    assert!(!f.nullable);
    assert!(f.default_value.is_none());
    assert_eq!(f.metadata.get("unit"), None);
    let f = Field::with_default("n", DataType::UInt8, true, vec![7]);
    assert_eq!(f.default_value, Some(vec![7]));
    assert!(f.nullable);
    let f = f.with_metadata("unit", "m").with_metadata("note", "x").with_metadata("unit", "km");
    assert_eq!(f.metadata.get("unit"), Some("km"));
    assert_eq!(f.metadata.get("note"), Some("x"));
    assert_eq!(f.metadata.get("other"), None);
    let g = f.clone();
    assert_eq!(g.name, "n");
    assert_eq!(g.default_value, Some(vec![7]));
    assert_eq!(g.metadata.get("unit"), Some("km"));
}

#[test]
fn metadata_keeps_the_last_value_of_a_key() {
    let mut m = Metadata::new();
    assert_eq!(m.get("a"), None);
    m.insert("a", "1");
    m.insert("b", "2");
    m.insert("a", "3");
    assert_eq!(m.get("a"), Some("3"));
    assert_eq!(m.get("b"), Some("2"));
    let d = m.clone();
    assert_eq!(d.get("a"), Some("3"));
}

#[test]
fn schema_lookups() {
    let s = Schema::new(vec![
        Field::new("id", DataType::UInt64, false),
        Field::new("name", DataType::String, false),
        Field::new("age", DataType::UInt8, true),
    ])
    .unwrap();
    assert_eq!(s.field_count(), 3);
    assert_eq!(s.field_index("id"), Some(0));
    assert_eq!(s.field_index("age"), Some(2));
    assert_eq!(s.field_index("Age"), None);
    assert_eq!(s.field_index(""), None);
    assert!(s.contains_field("name"));
    assert!(!s.contains_field("nam"));
    assert_eq!(s.field("name").map(|f| f.data_type), Some(DataType::String));
    assert!(s.field("nope").is_none());
    assert_eq!(s.field_by_index(2).map(|f| f.name.as_str()), Some("age"));
    assert!(s.field_by_index(3).is_none());
    assert_eq!(s.fields().len(), 3);
    let s = s.with_metadata("owner", "me");
    assert_eq!(s.metadata().get("owner"), Some("me"));
    assert_eq!(s.field_count(), 3);
}

#[test]
fn schema_rejects_duplicate_names() {
    let r = Schema::new(vec![
        Field::new("id", DataType::UInt64, false),
        Field::new("x", DataType::String, false),
        Field::new("id", DataType::UInt8, true),
    ]);
    assert!(matches!(r, Err(Error::InvalidArgument(_))));
    assert!(Schema::new(vec![]).is_ok());
}

#[test]
fn compression_tags() {
    let all = [
        (CompressionType::Uncompressed, 0),
        (CompressionType::LZ4, 1),
        (CompressionType::Zstd, 2),
        (CompressionType::Snappy, 3),
        (CompressionType::Dictionary, 4),
        (CompressionType::RunLength, 5),
        (CompressionType::Delta, 6),
        (CompressionType::BitPacking, 7),
    ];
    for (c, tag) in all {
        assert_eq!(c.tag(), tag);
        assert_eq!(CompressionType::from_tag(tag), Some(c));
    }
    assert_eq!(CompressionType::from_tag(8), None);
    assert_eq!(CompressionType::from_tag(u32::MAX), None);
}

#[test]
fn no_compression_leaves_the_data() {
    let c = NoCompression;
    assert_eq!(c.compress(&[1, 2, 3]).unwrap(), vec![1, 2, 3]);
    assert_eq!(c.decompress(&[1, 2, 3], 3).unwrap(), vec![1, 2, 3]);
    assert_eq!(c.compress(&[]).unwrap(), Vec::<u8>::new());
    assert_eq!(c.compression_type(), CompressionType::Uncompressed);
}

#[test]
fn copies_keep_their_contents() {
    let s = Schema::new(vec![
        Field::new("id", DataType::UInt64, false).with_metadata("k", "v"),
        Field::with_default("n", DataType::UInt8, true, vec![1]),
    ])
    .unwrap()
    .with_metadata("owner", "me");
    let c = s.clone();
    assert_eq!(c.field_count(), 2);
    assert_eq!(c.field_index("n"), Some(1));
    assert_eq!(c.fields()[0].metadata.get("k"), Some("v"));
    assert_eq!(c.fields()[1].default_value, Some(vec![1]));
    assert_eq!(c.metadata().get("owner"), Some("me"));
    assert_eq!(c.to_bytes().unwrap(), s.to_bytes().unwrap());
    let m = s.metadata().clone();
    assert_eq!(m.get("owner"), Some("me"));
}
